use memory_rs::address::Address;
use memory_rs::memory::Memory;

/// A region of `size` zero bytes with `value` stored little-endian at `at`.
fn memory_with_u64(size: usize, at: usize, value: u64) -> Memory {
    let mut bytes = vec![0u8; size];
    bytes[at..at + 8].copy_from_slice(&value.to_le_bytes());
    Memory::new(bytes)
}

fn read_u64(mem: &Memory, at: usize) -> u64 {
    Address::new(at).read::<u64>(mem)
}

fn read_u32(mem: &Memory, at: usize) -> u32 {
    Address::new(at).read::<u32>(mem)
}

#[test]
fn test_address_new() {
    assert_eq!(0xab, Address::new(0xab).ptr());
}

#[test]
fn test_address_read_memory() {
    let mut mem = Memory::zeroed(16);
    Address::new(4).write(&mut mem, 0x12345678u32);
    assert_eq!(vec![0x78, 0x56, 0x34, 0x12], Address::new(4).read_memory(&mem, 4));
}

#[test]
fn test_address_write_memory() {
    let mut mem = Memory::zeroed(16);
    Address::new(4).write(&mut mem, 0xdeadbeefu32);
    Address::new(4).write_memory(&mut mem, &vec![0x78, 0x56, 0x34, 0x12]);
    assert_eq!(0x12345678, read_u32(&mem, 4));
}

#[test]
fn test_address_copy_memory() {
    let mut mem = Memory::zeroed(16);
    Address::new(4).write(&mut mem, 0xdeadbeefu32);
    Address::new(8).write_memory(&mut mem, &vec![0x78, 0x56, 0x34, 0x12]);
    Address::new(4).copy_memory(&mut mem, 8, 4);
    assert_eq!(0x12345678, read_u32(&mem, 4));
    assert_eq!(0x12345678, read_u32(&mem, 8));
}

#[test]
fn test_address_fill_memory() {
    let mut mem = Memory::zeroed(16);
    Address::new(4).write(&mut mem, 0xdeadbeefu32);
    Address::new(4).fill_memory(&mut mem, 0x90, 3);
    assert_eq!(0xde909090, read_u32(&mem, 4));
}

#[test]
fn test_address_write() {
    let mut mem = memory_with_u64(16, 8, 0x12345678deadbeefu64);

    Address::new(8).write(&mut mem, 0x90u8);
    assert_eq!(0x12345678deadbe90u64, read_u64(&mem, 8));

    Address::new(8).write(&mut mem, 0xbaadu16);
    assert_eq!(0x12345678deadbaadu64, read_u64(&mem, 8));

    Address::new(8).write(&mut mem, 0xdeadbeefu32);
    assert_eq!(0x12345678deadbeefu64, read_u64(&mem, 8));

    Address::new(8).write(&mut mem, 0xdeadbeef12345678u64);
    assert_eq!(0xdeadbeef12345678u64, read_u64(&mem, 8));
}

#[test]
fn test_address_read() {
    let mem = memory_with_u64(16, 8, 0x12345678deadbeefu64);

    assert_eq!(0xef, Address::new(8).read::<u8>(&mem));
    assert_eq!(0xbeef, Address::new(8).read::<u16>(&mem));
    assert_eq!(0xdeadbeef, Address::new(8).read::<u32>(&mem));
    assert_eq!(0x12345678deadbeef, Address::new(8).read::<u64>(&mem));
}

// Layout of the flat struct {a: u8, b: u16, c: u32, d: u64} placed at OBJ,
// with a pointer to it stored at PTR_TO_PTR.
const PTR_TO_PTR: usize = 8;
const OBJ: usize = 16;
const OFF_A: usize = 0;
const OFF_B: usize = 2;
const OFF_C: usize = 4;
const OFF_D: usize = 8;

fn flat_object() -> Memory {
    let mut mem = Memory::zeroed(32);
    Address::new(PTR_TO_PTR).write(&mut mem, OBJ as u64);
    Address::new(OBJ + OFF_A).write(&mut mem, 0x33u8);
    Address::new(OBJ + OFF_B).write(&mut mem, 0x9090u16);
    Address::new(OBJ + OFF_C).write(&mut mem, 0xbaadf00du32);
    Address::new(OBJ + OFF_D).write(&mut mem, 0xdeadbeefdeadbeefu64);
    mem
}

#[test]
fn test_address_write_ptr_val() {
    let mut mem = flat_object();

    assert_eq!(false, Address::new(0).write_ptr_val::<u8>(&mut mem, OFF_A, 0x88));

    assert_eq!(true, Address::new(PTR_TO_PTR).write_ptr_val::<u8>(&mut mem, OFF_A, 0x88));
    assert_eq!(0x88, Address::new(OBJ + OFF_A).read::<u8>(&mem));

    assert_eq!(true, Address::new(PTR_TO_PTR).write_ptr_val::<u16>(&mut mem, OFF_B, 0xefef));
    assert_eq!(0xefef, Address::new(OBJ + OFF_B).read::<u16>(&mem));

    assert_eq!(
        true,
        Address::new(PTR_TO_PTR).write_ptr_val::<u32>(&mut mem, OFF_C, 0x45454545)
    );
    assert_eq!(0x45454545, Address::new(OBJ + OFF_C).read::<u32>(&mem));

    assert_eq!(
        true,
        Address::new(PTR_TO_PTR).write_ptr_val::<u64>(&mut mem, OFF_D, 0x1234567887654321)
    );
    assert_eq!(0x1234567887654321, Address::new(OBJ + OFF_D).read::<u64>(&mem));
}

#[test]
fn test_address_read_ptr_val() {
    let mem = flat_object();

    assert_eq!(None, Address::new(0).read_ptr_val::<u8>(&mem, OFF_A));

    assert_eq!(0x33, Address::new(PTR_TO_PTR).read_ptr_val::<u8>(&mem, OFF_A).unwrap());
    assert_eq!(0x9090, Address::new(PTR_TO_PTR).read_ptr_val::<u16>(&mem, OFF_B).unwrap());
    assert_eq!(
        0xbaadf00d,
        Address::new(PTR_TO_PTR).read_ptr_val::<u32>(&mem, OFF_C).unwrap()
    );
    assert_eq!(
        0xdeadbeefdeadbeef,
        Address::new(PTR_TO_PTR).read_ptr_val::<u64>(&mem, OFF_D).unwrap()
    );
}

// Layout of the nested structs
//   outer {a: u8, b: u16, c: *const u32, d: *const inner, e: u64} at OUTER,
//   inner {x: u32, y: *const u32, z: u32} at INNER,
// with v1 at V1 (pointed to by inner.y) and v2 at V2 (pointed to by outer.c).
const OUTER: usize = 16;
const INNER: usize = 48;
const V1: usize = 72;
const V2: usize = 76;
const OUTER_A: usize = 0;
const OUTER_B: usize = 2;
const OUTER_C: usize = 8;
const OUTER_D: usize = 16;
const OUTER_E: usize = 24;
const INNER_X: usize = 0;
const INNER_Y: usize = 8;
const INNER_Z: usize = 16;

fn nested_objects() -> Memory {
    let mut mem = Memory::zeroed(80);
    Address::new(PTR_TO_PTR).write(&mut mem, OUTER as u64);
    Address::new(V1).write(&mut mem, 0xc0cac0cau32);
    Address::new(V2).write(&mut mem, 0xbaadf00du32);
    Address::new(INNER + INNER_X).write(&mut mem, 0x11223344u32);
    Address::new(INNER + INNER_Y).write(&mut mem, V1 as u64);
    Address::new(INNER + INNER_Z).write(&mut mem, 0x56565656u32);
    Address::new(OUTER + OUTER_A).write(&mut mem, 0x33u8);
    Address::new(OUTER + OUTER_B).write(&mut mem, 0x9090u16);
    Address::new(OUTER + OUTER_C).write(&mut mem, V2 as u64);
    Address::new(OUTER + OUTER_D).write(&mut mem, INNER as u64);
    Address::new(OUTER + OUTER_E).write(&mut mem, 0xdeadbeefdeadbeefu64);
    mem
}

#[test]
fn test_address_write_multilevel_ptr_val() {
    let mut mem = nested_objects();
    let base = Address::new(PTR_TO_PTR);

    assert_eq!(true, base.write_multilevel_ptr_val::<u8>(&mut mem, &vec![OUTER_A], 0x88));
    assert_eq!(0x88, Address::new(OUTER + OUTER_A).read::<u8>(&mem));

    assert_eq!(true, base.write_multilevel_ptr_val::<u16>(&mut mem, &vec![OUTER_B], 0xefef));
    assert_eq!(0xefef, Address::new(OUTER + OUTER_B).read::<u16>(&mem));

    assert_eq!(
        true,
        base.write_multilevel_ptr_val::<u32>(&mut mem, &vec![OUTER_C, 0], 0x45454545)
    );
    assert_eq!(0x45454545, read_u32(&mem, V2));

    assert_eq!(
        true,
        base.write_multilevel_ptr_val::<u32>(&mut mem, &vec![OUTER_D, INNER_X], 0x11111111)
    );
    assert_eq!(0x11111111, read_u32(&mem, INNER + INNER_X));

    assert_eq!(
        true,
        base.write_multilevel_ptr_val::<u32>(&mut mem, &vec![OUTER_D, INNER_Y, 0], 0x77777777)
    );
    assert_eq!(0x77777777, read_u32(&mem, V1));

    assert_eq!(
        true,
        base.write_multilevel_ptr_val::<u32>(&mut mem, &vec![OUTER_D, INNER_Z], 0x66666666)
    );
    assert_eq!(0x66666666, read_u32(&mem, INNER + INNER_Z));

    assert_eq!(
        true,
        base.write_multilevel_ptr_val::<u64>(&mut mem, &vec![OUTER_E], 0x1234567887654321)
    );
    assert_eq!(0x1234567887654321, read_u64(&mem, OUTER + OUTER_E));
}

#[test]
fn test_address_read_multilevel_ptr_val() {
    let mem = nested_objects();
    let base = Address::new(PTR_TO_PTR);

    assert_eq!(0x33, base.read_multilevel_ptr_val::<u8>(&mem, &vec![OUTER_A]).unwrap());
    assert_eq!(0x9090, base.read_multilevel_ptr_val::<u16>(&mem, &vec![OUTER_B]).unwrap());
    assert_eq!(
        0xbaadf00d,
        base.read_multilevel_ptr_val::<u32>(&mem, &vec![OUTER_C, 0]).unwrap()
    );
    assert_eq!(
        0x11223344,
        base.read_multilevel_ptr_val::<u32>(&mem, &vec![OUTER_D, INNER_X]).unwrap()
    );
    assert_eq!(
        0xc0cac0ca,
        base.read_multilevel_ptr_val::<u32>(&mem, &vec![OUTER_D, INNER_Y, 0]).unwrap()
    );
    assert_eq!(
        0x56565656,
        base.read_multilevel_ptr_val::<u32>(&mem, &vec![OUTER_D, INNER_Z]).unwrap()
    );
    assert_eq!(
        0xdeadbeefdeadbeef,
        base.read_multilevel_ptr_val::<u64>(&mem, &vec![OUTER_E]).unwrap()
    );
}

#[test]
fn pointer_chain_empty_offsets_fail_and_leave_memory() {
    let mut mem = nested_objects();
    let before = mem.to_vec();
    let base = Address::new(PTR_TO_PTR);
    assert_eq!(false, base.write_multilevel_ptr_val::<u32>(&mut mem, &vec![], 0x1));
    assert_eq!(None, base.read_multilevel_ptr_val::<u32>(&mem, &vec![]));
    assert_eq!(before, mem.to_vec());
}

#[test]
fn pointer_chain_null_base_fails_and_leaves_memory() {
    let mut mem = nested_objects();
    let before = mem.to_vec();
    let null = Address::new(0);
    assert_eq!(false, null.write_multilevel_ptr_val::<u32>(&mut mem, &vec![OUTER_C, 0], 0x1));
    assert_eq!(None, null.read_multilevel_ptr_val::<u32>(&mem, &vec![OUTER_C, 0]));
    assert_eq!(false, null.write_ptr_val::<u8>(&mut mem, OUTER_A, 0x1));
    assert_eq!(before, mem.to_vec());
}

#[test]
fn signed_values_use_twos_complement() {
    let mut mem = Memory::zeroed(16);
    Address::new(8).write(&mut mem, -1i32);
    assert_eq!(0xffffffffu32, read_u32(&mem, 8));
    assert_eq!(-1i8, Address::new(8).read::<i8>(&mem));
    Address::new(0).write(&mut mem, i64::MIN);
    assert_eq!(vec![0, 0, 0, 0, 0, 0, 0, 0x80], Address::new(0).read_memory(&mem, 8));
    assert_eq!(i64::MIN, Address::new(0).read::<i64>(&mem));
    Address::new(8).write(&mut mem, 0x7fff_ffffi32);
    assert_eq!(0x7fff_ffffi32, Address::new(8).read::<i32>(&mem));
    assert_eq!(-1i16, Address::new(8).read::<i16>(&mem));
}
