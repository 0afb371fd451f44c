use std::sync::{Arc, Mutex};

use ani_core::mem::{Access, Answer, BusMatrix, BusMatrixUpdateOp, BusSlave, MemRangeImpl, ReadResult, WriteResult};
use ani_core::{Error, PROT_ALL, PROT_READ, PROT_RW, PROT_WRITE};

#[derive(Debug, Eq, PartialEq)]
enum BusAccess {
    ReadU8(u64),
    ReadU16(u64),
    ReadU32(u64),
    ReadU64(u64),
    WriteU8(u64, u8),
    WriteU16(u64, u16),
    WriteU32(u64, u32),
    WriteU64(u64, u64),
}

#[derive(Clone)]
struct TestBusSlave {
    accesses: Arc<Mutex<Vec<BusAccess>>>,
}

impl TestBusSlave {
    fn new() -> TestBusSlave {
        TestBusSlave { accesses: Arc::new(Mutex::new(Vec::new())) }
    }

    fn log(&self, access: BusAccess) -> usize {
        let mut accesses = self.accesses.lock().unwrap();
        accesses.push(access);
        accesses.len()
    }
}

impl BusSlave for TestBusSlave {
    // The relation is only read by the verifier; this slave is not verified.
    fn served(&self, _new: Self, _access: Access, _answer: Answer) -> bool {
        true
    }

    fn read_u8(&mut self, addr: u64) -> ReadResult<u8> {
        ReadResult::Success(self.log(BusAccess::ReadU8(addr)) as u8)
    }

    fn read_u16(&mut self, addr: u64) -> ReadResult<u16> {
        ReadResult::Success(self.log(BusAccess::ReadU16(addr)) as u16)
    }

    fn read_u32(&mut self, addr: u64) -> ReadResult<u32> {
        ReadResult::Success(self.log(BusAccess::ReadU32(addr)) as u32)
    }

    fn read_u64(&mut self, addr: u64) -> ReadResult<u64> {
        ReadResult::Success(self.log(BusAccess::ReadU64(addr)) as u64)
    }

    fn write_u8(&mut self, addr: u64, data: u8) -> WriteResult {
        self.log(BusAccess::WriteU8(addr, data));
        WriteResult::Success
    }

    fn write_u16(&mut self, addr: u64, data: u16) -> WriteResult {
        self.log(BusAccess::WriteU16(addr, data));
        WriteResult::Success
    }

    fn write_u32(&mut self, addr: u64, data: u32) -> WriteResult {
        self.log(BusAccess::WriteU32(addr, data));
        WriteResult::Success
    }

    fn write_u64(&mut self, addr: u64, data: u64) -> WriteResult {
        self.log(BusAccess::WriteU64(addr, data));
        WriteResult::Success
    }
}

fn added_base(op: &BusMatrixUpdateOp<TestBusSlave>) -> (u64, u64) {
    match op {
        BusMatrixUpdateOp::Add(range) => (range.base, range.size),
    }
}

#[test]
fn simple_dispatch() {
    let mut map: BusMatrix<TestBusSlave> = Default::default();

    let slave = TestBusSlave::new();

    map.add_bus_slave(0x1000, 0x200, slave.clone()).unwrap();

    assert_eq!(ReadResult::Success(1), map.read_u8(0x1000));
    assert_eq!(ReadResult::Success(2), map.read_u8(0x1000));
    assert_eq!(ReadResult::BusError, map.read_u8(0x1200));

    let accesses = vec![BusAccess::ReadU8(0), BusAccess::ReadU8(0)];

    assert_eq!(accesses, *slave.accesses.lock().unwrap());
}

#[test]
fn update_add() {
    let mut matrix: BusMatrix<TestBusSlave> = Default::default();

    let slave = TestBusSlave::new();

    matrix.add_bus_slave(0x1000, 0x200, slave.clone()).unwrap();

    let child = matrix.add_child_matrix();
    let mut updates = matrix.take_updates(child);

    let mut child_matrix: BusMatrix<TestBusSlave> = Default::default();

    let update_op = updates.remove(0);

    child_matrix.apply_update_op(update_op);

    assert_eq!(ReadResult::Success(1), child_matrix.read_u8(0x1000));
    assert_eq!(ReadResult::Success(2), child_matrix.read_u8(0x1001));

    assert_eq!(vec![BusAccess::ReadU8(0), BusAccess::ReadU8(1)], *slave.accesses.lock().unwrap());
}

#[test]
fn slave_sees_offsets_and_widths() {
    let mut map: BusMatrix<TestBusSlave> = BusMatrix::new();
    let slave = TestBusSlave::new();
    map.add_bus_slave(0x4000, 0x100, slave.clone()).unwrap();

    assert_eq!(ReadResult::Success(1), map.read_u16(0x4010));
    assert_eq!(ReadResult::Success(2), map.read_u32(0x40fc));
    assert_eq!(ReadResult::Success(3), map.read_u64(0x40f8));
    assert_eq!(WriteResult::Success, map.write_u8(0x4001, 0xab));
    assert_eq!(WriteResult::Success, map.write_u16(0x4002, 0xbeef));
    assert_eq!(WriteResult::Success, map.write_u32(0x4004, 0xdeadbeef));
    assert_eq!(WriteResult::Success, map.write_u64(0x4008, 0x0123456789abcdef));
    // An access that runs past the end of the range reaches no one.
    assert_eq!(ReadResult::BusError, map.read_u32(0x40fd));
    assert_eq!(WriteResult::BusError, map.write_u64(0x40f9, 1));

    assert_eq!(
        vec![
            BusAccess::ReadU16(0x10),
            BusAccess::ReadU32(0xfc),
            BusAccess::ReadU64(0xf8),
            BusAccess::WriteU8(1, 0xab),
            BusAccess::WriteU16(2, 0xbeef),
            BusAccess::WriteU32(4, 0xdeadbeef),
            BusAccess::WriteU64(8, 0x0123456789abcdef),
        ],
        *slave.accesses.lock().unwrap()
    );
}

#[test]
fn mappable_memory_is_little_endian() {
    let mut map: BusMatrix<TestBusSlave> = BusMatrix::new();
    map.add_mappable_range(0x2000, 0x1000, PROT_RW).unwrap();

    assert_eq!(ReadResult::Success(0), map.read_u32(0x2000));
    assert_eq!(WriteResult::Success, map.write_u32(0x2000, 0x11223344));
    assert_eq!(ReadResult::Success(0x44), map.read_u8(0x2000));
    assert_eq!(ReadResult::Success(0x11), map.read_u8(0x2003));
    assert_eq!(ReadResult::Success(0x3344), map.read_u16(0x2000));
    assert_eq!(ReadResult::Success(0x11223344), map.read_u64(0x2000));
    assert_eq!(WriteResult::Success, map.write_u64(0x2ff8, 0x8877665544332211));
    assert_eq!(ReadResult::Success(0x8877665544332211), map.read_u64(0x2ff8));
    assert_eq!(WriteResult::Success, map.write_u16(0x2ff6, 0xaabb));
    assert_eq!(ReadResult::Success(0x2211aabb), map.read_u32(0x2ff6));
}

#[test]
fn last_byte_of_a_range_is_reachable() {
    let mut map: BusMatrix<TestBusSlave> = BusMatrix::new();
    map.add_mappable_range(0x2000, 0x10, PROT_RW).unwrap();
    assert_eq!(WriteResult::Success, map.write_u8(0x200f, 7));
    assert_eq!(ReadResult::Success(7), map.read_u8(0x200f));
    assert_eq!(ReadResult::BusError, map.read_u8(0x2010));
    assert_eq!(ReadResult::BusError, map.read_u16(0x200f));
    assert_eq!(ReadResult::BusError, map.read_u8(0x1fff));
}

#[test]
fn first_matching_range_wins() {
    let mut map: BusMatrix<TestBusSlave> = BusMatrix::new();
    let slave = TestBusSlave::new();
    map.add_mappable_range(0x1000, 0x100, PROT_RW).unwrap();
    map.add_bus_slave(0x1000, 0x1000, slave.clone()).unwrap();
    assert_eq!(WriteResult::Success, map.write_u8(0x1010, 9));
    assert_eq!(ReadResult::Success(9), map.read_u8(0x1010));
    // Only the peripheral holds all of this access.
    assert_eq!(ReadResult::Success(1), map.read_u32(0x10fe));
    assert_eq!(vec![BusAccess::ReadU32(0xfe)], *slave.accesses.lock().unwrap());
}

#[test]
fn read_only_range_refuses_writes() {
    let mut map: BusMatrix<TestBusSlave> = BusMatrix::new();
    map.add_mappable_range(0x8000, 0x1000, PROT_READ).unwrap();
    map.set_range(&[0x78, 0x56, 0x34, 0x12], 0x8010).unwrap();
    assert_eq!(ReadResult::Success(0x12345678), map.read_u32(0x8010));
    assert_eq!(WriteResult::BusError, map.write_u32(0x8010, 0xdeadbeef));
    assert_eq!(WriteResult::BusError, map.write_u8(0x8010, 1));
    assert_eq!(WriteResult::BusError, map.write_u16(0x8010, 1));
    assert_eq!(WriteResult::BusError, map.write_u64(0x8010, 1));
    assert_eq!(ReadResult::Success(0x12345678), map.read_u32(0x8010));
}

#[test]
fn write_only_range_refuses_reads() {
    let mut map: BusMatrix<TestBusSlave> = BusMatrix::new();
    map.add_mappable_range(0x8000, 0x1000, PROT_WRITE).unwrap();
    assert_eq!(WriteResult::Success, map.write_u32(0x8000, 5));
    assert_eq!(ReadResult::BusError, map.read_u32(0x8000));
    assert_eq!(ReadResult::BusError, map.read_u8(0x8000));
    assert_eq!(ReadResult::BusError, map.read_u16(0x8000));
    assert_eq!(ReadResult::BusError, map.read_u64(0x8000));
}

#[test]
fn empty_bus_answers_bus_error() {
    let mut map: BusMatrix<TestBusSlave> = BusMatrix::new();
    assert_eq!(ReadResult::BusError, map.read_u8(0));
    assert_eq!(WriteResult::BusError, map.write_u64(u64::MAX - 3, 0));
    assert_eq!(ReadResult::BusError, map.read_u64(u64::MAX));
}

#[test]
fn set_range_needs_one_covering_mappable_range() {
    let mut map: BusMatrix<TestBusSlave> = BusMatrix::new();
    map.add_mappable_range(0x1000, 0x10, PROT_ALL).unwrap();
    map.add_mappable_range(0x1010, 0x10, PROT_ALL).unwrap();
    map.add_bus_slave(0x3000, 0x100, TestBusSlave::new()).unwrap();
    // Spanning two ranges is refused.
    assert_eq!(Err(Error::UnableToFindRange(0x100c, 8)), map.set_range(&[1; 8], 0x100c));
    // A peripheral is no host memory.
    assert_eq!(Err(Error::UnableToFindRange(0x3000, 4)), map.set_range(&[1; 4], 0x3000));
    assert_eq!(Ok(()), map.set_range(&[1, 2, 3, 4], 0x100c));
    assert_eq!(ReadResult::Success(0x04030201), map.read_u32(0x100c));
    assert_eq!(Ok(1), map.find_range(0x1010, 0x10));
    assert_eq!(Err(Error::UnableToFindRange(0x1010, 0x11)), map.find_range(0x1010, 0x11));
    assert_eq!(Ok(vec![2, 3, 4]), map.copy_range(0x100d, 3));
    assert_eq!(Err(Error::UnableToFindRange(0x100e, 3)), map.copy_range(0x100e, 3));
    assert_eq!(Err(Error::UnableToFindRange(0x3000, 1)), map.copy_range(0x3000, 1));
}

#[test]
fn child_matrix_receives_ranges_in_order() {
    let mut parent: BusMatrix<TestBusSlave> = BusMatrix::new();
    parent.add_mappable_range(0x1000, 0x100, PROT_ALL).unwrap();
    parent.add_bus_slave(0x2000, 0x100, TestBusSlave::new()).unwrap();

    let child = parent.add_child_matrix();
    let first = parent.take_updates(child);
    assert_eq!(2, first.len());
    assert_eq!((0x1000, 0x100), added_base(&first[0]));
    assert_eq!((0x2000, 0x100), added_base(&first[1]));
    assert_eq!(0, parent.take_updates(child).len());

    parent.add_mappable_range(0x3000, 0x40, PROT_READ).unwrap();
    let second = parent.take_updates(child);
    assert_eq!(1, second.len());
    assert_eq!((0x3000, 0x40), added_base(&second[0]));
    match &second[0] {
        BusMatrixUpdateOp::Add(range) => match &range.backing {
            MemRangeImpl::Mappable(bytes, prot) => {
                assert_eq!(0x40, bytes.len());
                assert_eq!(PROT_READ, *prot);
            },
            MemRangeImpl::Mmio(_) => panic!("expected host memory"),
        },
    }
}

#[test]
fn child_copy_holds_parent_bytes() {
    let mut parent: BusMatrix<TestBusSlave> = BusMatrix::new();
    parent.add_mappable_range(0x1000, 0x100, PROT_ALL).unwrap();
    parent.set_range(&[9, 8, 7], 0x1004).unwrap();
    let child = parent.add_child_matrix();
    let mut view: BusMatrix<TestBusSlave> = BusMatrix::new();
    for op in parent.take_updates(child) {
        view.apply_update_op(op);
    }
    assert_eq!(ReadResult::Success(0x00070809), view.read_u32(0x1004));
}

#[test]
fn a_matrix_serves_as_a_peripheral() {
    let mut inner: BusMatrix<TestBusSlave> = BusMatrix::new();
    inner.add_mappable_range(0x0, 0x10, PROT_RW).unwrap();
    assert_eq!(WriteResult::Success, BusSlave::write_u32(&mut inner, 0x4, 0xcafef00d));
    assert_eq!(ReadResult::Success(0xcafef00d), BusSlave::read_u32(&mut inner, 0x4));
    assert_eq!(ReadResult::Success(0x0d), BusSlave::read_u8(&mut inner, 0x4));
    assert_eq!(ReadResult::Success(0xf00d), BusSlave::read_u16(&mut inner, 0x4));
    assert_eq!(ReadResult::BusError, BusSlave::read_u64(&mut inner, 0xc));
    assert_eq!(WriteResult::BusError, BusSlave::write_u8(&mut inner, 0x10, 1));
}

#[test]
fn host_range_holds_the_given_bytes() {
    let mut map: BusMatrix<TestBusSlave> = BusMatrix::new();
    let child = map.add_child_matrix();
    assert_eq!(Ok(()), map.add_host_range(0x100, 4, PROT_READ, vec![1, 2, 3, 4]));
    assert_eq!(ReadResult::Success(0x04030201), map.read_u32(0x100));
    assert_eq!(1, map.take_updates(child).len());
    assert_eq!(Ok(vec![0, 0, 0]), ani_core::mem::zeroed(3));
}
