use memory_rs::address::Address;
use memory_rs::memory::Memory;
use memory_rs::memory_edit::{MemoryDataEdit, MemoryEdit, MemoryPatch};

const AT: usize = 4;

fn memory_holding_deadbeef() -> Memory {
    let mut mem = Memory::zeroed(12);
    Address::new(AT).write(&mut mem, 0xdeadbeefu32);
    mem
}

fn value(mem: &Memory) -> u32 {
    Address::new(AT).read::<u32>(mem)
}

#[test]
fn test_memory_patch_edit() {
    let mut mem = memory_holding_deadbeef();
    let mut patch = MemoryPatch::new(Address::new(AT), vec![0x78, 0x56, 0x34, 0x12], &mem);

    patch.edit(&mut mem);
    assert_eq!(0x12345678u32, value(&mem));

    patch.revert(&mut mem);
    patch.edit(&mut mem);
    assert_eq!(0x12345678u32, value(&mem));
}

#[test]
fn test_memory_patch_revert() {
    let mut mem = memory_holding_deadbeef();
    let mut patch = MemoryPatch::new(Address::new(AT), vec![0x78, 0x56, 0x34, 0x12], &mem);

    patch.edit(&mut mem);
    patch.revert(&mut mem);
    assert_eq!(0xdeadbeefu32, value(&mem));

    patch.edit(&mut mem);
    patch.revert(&mut mem);
    assert_eq!(0xdeadbeefu32, value(&mem));
}

#[test]
fn test_memory_data_edit_edit() {
    let mut mem = memory_holding_deadbeef();
    let mut data_edit = MemoryDataEdit::<i32>::new(Address::new(AT), 0x12345678, &mem);

    data_edit.edit(&mut mem);
    assert_eq!(0x12345678, value(&mem));

    data_edit.revert(&mut mem);
    data_edit.edit(&mut mem);
    assert_eq!(0x12345678, value(&mem));
}

#[test]
fn test_memory_data_edit_revert() {
    let mut mem = memory_holding_deadbeef();
    let mut data_edit = MemoryDataEdit::<i32>::new(Address::new(AT), 0x12345678, &mem);

    data_edit.edit(&mut mem);
    data_edit.revert(&mut mem);
    assert_eq!(0xdeadbeef, value(&mem));

    data_edit.edit(&mut mem);
    data_edit.revert(&mut mem);
    assert_eq!(0xdeadbeef, value(&mem));
}

#[test]
fn edit_history_ends_on_last_call_and_keeps_other_bytes() {
    let mut mem = memory_holding_deadbeef();
    Address::new(0).write(&mut mem, 0x01020304u32);
    Address::new(8).write(&mut mem, 0x05060708u32);
    let mut patch = MemoryPatch::new(Address::new(AT), vec![1, 2, 3, 4], &mem);
    let mut data_edit = MemoryDataEdit::<u16>::new(Address::new(AT), 0xaaaa, &mem);

    for round in 0..5 {
        patch.edit(&mut mem);
        assert_eq!(vec![1, 2, 3, 4], Address::new(AT).read_memory(&mem, 4));
        if round % 2 == 0 {
            patch.revert(&mut mem);
            assert_eq!(0xdeadbeefu32, value(&mem));
        }
    }
    patch.revert(&mut mem);
    data_edit.edit(&mut mem);
    assert_eq!(0xdeadaaaau32, value(&mem));
    data_edit.revert(&mut mem);
    assert_eq!(0xdeadbeefu32, value(&mem));
    assert_eq!(0x01020304u32, Address::new(0).read::<u32>(&mem));
    assert_eq!(0x05060708u32, Address::new(8).read::<u32>(&mem));
}

#[test]
fn signed_data_edit_round_trip() {
    let mut mem = memory_holding_deadbeef();
    let mut data_edit = MemoryDataEdit::<i16>::new(Address::new(AT), -2, &mem);
    data_edit.edit(&mut mem);
    assert_eq!(vec![0xfe, 0xff], Address::new(AT).read_memory(&mem, 2));
    assert_eq!(-2i16, Address::new(AT).read::<i16>(&mem));
    data_edit.revert(&mut mem);
    assert_eq!(0xdeadbeefu32, value(&mem));
}
