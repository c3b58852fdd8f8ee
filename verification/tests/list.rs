use threaddemo::list::List;

#[test]
fn list_builds_and_matches() {
    let l = List::Cons(123, Box::new(List::Cons(2, Box::new(List::Cons(3, Box::new(List::Nil))))));
    match l {
        List::Nil => panic!("a three-element list is not empty"),
        List::Cons(i, rest) => {
            assert_eq!(i, 123);
            assert!(matches!(*rest, List::Cons(2, _)));
        }
    }
}
