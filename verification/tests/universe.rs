use um32::memory::MemFault;
use um32::memory::Memory;

#[test]
fn alloc_returns_fresh_zeroed_array() {
    let mut m = Memory::new(vec![0x70000000]);
    let id = m.allocate(3).unwrap();
    assert!(id != 0);
    assert_eq!(m.read(id, 0), Ok(0));
    assert_eq!(m.read(id, 1), Ok(0));
    assert_eq!(m.read(id, 2), Ok(0));
    assert_eq!(m.read(id, 3), Err(MemFault::OffsetOutOfRange));
}

#[test]
fn alloc_never_reuses_an_active_identifier() {
    let mut m = Memory::new(vec![]);
    let a = m.allocate(1).unwrap();
    let b = m.allocate(1).unwrap();
    assert!(a != b);
    m.free(a).unwrap();
    let c = m.allocate(1).unwrap();
    assert!(c != b);
    let d = m.allocate(1).unwrap();
    assert!(d != b && d != c);
}

#[test]
fn write_then_read_round_trips() {
    let mut m = Memory::new(vec![]);
    let id = m.allocate(4).unwrap();
    m.write(id, 2, 0xDEADBEEF).unwrap();
    assert_eq!(m.read(id, 2), Ok(0xDEADBEEF));
    // The other offsets keep their zeros.
    assert_eq!(m.read(id, 0), Ok(0));
    assert_eq!(m.read(id, 3), Ok(0));
}

#[test]
fn freed_identifier_traps_every_access() {
    let mut m = Memory::new(vec![]);
    let id = m.allocate(2).unwrap();
    m.write(id, 0, 7).unwrap();
    m.free(id).unwrap();
    assert_eq!(m.read(id, 0), Err(MemFault::InactiveArray));
    assert_eq!(m.write(id, 0, 1), Err(MemFault::InactiveArray));
    assert_eq!(m.load_program(id), Err(MemFault::InactiveArray));
    assert_eq!(m.free(id), Err(MemFault::DoubleFree));
}

#[test]
fn free_of_program_array_traps() {
    let mut m = Memory::new(vec![1, 2, 3]);
    assert_eq!(m.free(0), Err(MemFault::FreeProgramArray));
}

#[test]
fn load_program_takes_a_snapshot() {
    let mut m = Memory::new(vec![0]);
    let id = m.allocate(1).unwrap();
    m.write(id, 0, 0x70000000).unwrap();
    m.load_program(id).unwrap();
    assert_eq!(m.read(0, 0), Ok(0x70000000));
    // A later store to the source does not reach the loaded code.
    m.write(id, 0, 0xDEADBEEF).unwrap();
    assert_eq!(m.read(0, 0), Ok(0x70000000));
    assert_eq!(m.read(id, 0), Ok(0xDEADBEEF));
}

#[test]
fn load_program_of_zero_changes_nothing() {
    let mut m = Memory::new(vec![10, 20]);
    m.load_program(0).unwrap();
    assert_eq!(m.read(0, 0), Ok(10));
    assert_eq!(m.read(0, 1), Ok(20));
    assert_eq!(m.allocated_count(), 0);
}

#[test]
fn allocated_count_follows_alloc_and_free() {
    let mut m = Memory::new(vec![]);
    assert_eq!(m.allocated_count(), 0);
    let a = m.allocate(1).unwrap();
    let b = m.allocate(5).unwrap();
    assert_eq!(m.allocated_count(), 2);
    m.free(a).unwrap();
    assert_eq!(m.allocated_count(), 1);
    m.free(b).unwrap();
    assert_eq!(m.allocated_count(), 0);
}

#[test]
fn array_len_reports_active_arrays() {
    let mut m = Memory::new(vec![1, 2]);
    assert_eq!(m.array_len(0), Some(2));
    let id = m.allocate(9).unwrap();
    assert_eq!(m.array_len(id), Some(9));
    m.free(id).unwrap();
    assert_eq!(m.array_len(id), None);
}
