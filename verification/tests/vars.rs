use async_stm::vars::{IdSource, TVar};

#[test]
fn id_increments() {
    let mut ids = IdSource::new();
    let a = TVar::new(&mut ids, 42);
    let b = TVar::new(&mut ids, 42);
    assert!(b.id() > a.id())
}
