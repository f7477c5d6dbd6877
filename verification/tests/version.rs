use async_stm::version::{next_version, Clock};
#[test]
fn next_version_increments() {
    let mut clock = Clock::new();
    let a = next_version(&mut clock);
    let b = next_version(&mut clock);
    assert!(b > a)
}
