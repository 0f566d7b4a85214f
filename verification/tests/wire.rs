use ttx_runtime::launch_data::{CLaunchData, CoreLaunchData, LaunchData, LaunchRequest};
use ttx_runtime::relocate::{KernelRelocation, RelocationRead};
use ttx_runtime::wire;

#[test]
fn relocations_are_written_like_postcard_writes_them() {
    let base = KernelRelocation { write_offset: 300, read_offset: RelocationRead::Base32, addend: -5 };
    assert_eq!(
        wire::push_relocation(vec![7], &base),
        [vec![7], postcard::to_allocvec(&(300u64, 0u32, -5i64)).unwrap()].concat()
    );
    let symbol = KernelRelocation {
        write_offset: 1,
        read_offset: RelocationRead::SymbolValue32(0xdead_beef),
        addend: i64::MIN,
    };
    assert_eq!(
        wire::push_relocation(Vec::new(), &symbol),
        postcard::to_allocvec(&(1u64, 1u32, 0xdead_beefu32, i64::MIN)).unwrap()
    );
    let offset = KernelRelocation {
        write_offset: u64::MAX,
        read_offset: RelocationRead::Offset(u64::MAX),
        addend: i64::MAX,
    };
    assert_eq!(
        wire::push_relocation(Vec::new(), &offset),
        postcard::to_allocvec(&(u64::MAX, 2u32, u64::MAX, i64::MAX)).unwrap()
    );
}

#[test]
fn a_relocation_has_known_bytes() {
    let relocation = KernelRelocation {
        write_offset: 0x80,
        read_offset: RelocationRead::SymbolValue32(5),
        addend: -1,
    };
    assert_eq!(wire::push_relocation(Vec::new(), &relocation), [0x80, 0x01, 1, 5, 1]);
}

#[test]
fn launch_data_is_written_like_postcard_writes_it() {
    let core = |entry: u32, stack: Option<u32>| CoreLaunchData { entry, stack };
    let data = LaunchData {
        workload_bank: (3, 4),
        workload_bank_offset: 1 << 40,
        workload_bank_size: 500,
        kernel_size: 400,
        bss: 1000,
        ebss: 2000,
        brisc: core(1, None),
        ncrisc: core(200, Some(u32::MAX)),
        trisc0: core(3, Some(0)),
        trisc1: core(4, Some(5)),
        trisc2: core(u32::MAX, Some(6)),
        data_bank: (0, 255),
        data_bank_offset: 7,
        flag: 1,
    };
    let head = postcard::to_allocvec(&(
        (3u8, 4u8),
        1u64 << 40,
        500u64,
        400u64,
        1000u32,
        2000u32,
        (1u32, None::<u32>),
        (200u32, Some(u32::MAX)),
    ))
    .unwrap();
    let tail = postcard::to_allocvec(&(
        (3u32, Some(0u32)),
        (4u32, Some(5u32)),
        (u32::MAX, Some(6u32)),
        (0u8, 255u8),
        7u64,
        1u32,
    ))
    .unwrap();
    assert_eq!(wire::push_launch_data(Vec::new(), &data), [head, tail].concat());
}

#[test]
fn launch_data_reads_back_on_values() {
    let core = |entry: u32, stack: Option<u32>| CoreLaunchData { entry, stack };
    let data = LaunchData {
        workload_bank: (255, 128),
        workload_bank_offset: u64::MAX,
        workload_bank_size: 128,
        kernel_size: 127,
        bss: u32::MAX,
        ebss: 0,
        brisc: core(0, Some(1)),
        ncrisc: core(300, None),
        trisc0: core(u32::MAX, Some(u32::MAX)),
        trisc1: core(5, None),
        trisc2: core(6, Some(128)),
        data_bank: (1, 2),
        data_bank_offset: 1 << 35,
        flag: 77,
    };
    let mut bytes = wire::push_launch_data(vec![9], &data);
    bytes.extend([0xff, 0x80, 1]);
    type Core = (u32, Option<u32>);
    type Head = ((u8, u8), u64, u64, u64, u32, u32);
    type Cores = (Core, Core, Core, Core, Core);
    type Tail = ((u8, u8), u64, u32);
    let ((head, cores, tail), rest): ((Head, Cores, Tail), &[u8]) =
        postcard::take_from_bytes(&bytes[1..]).unwrap();
    assert_eq!(head, ((255, 128), u64::MAX, 128, 127, u32::MAX, 0));
    assert_eq!(
        cores,
        ((0, Some(1)), (300, None), (u32::MAX, Some(u32::MAX)), (5, None), (6, Some(128)))
    );
    assert_eq!(tail, ((1, 2), 1 << 35, 77));
    assert_eq!(rest, [0xff, 0x80, 1]);
}

#[test]
fn requests_are_read_like_postcard_writes_them() {
    for (addr, offset) in [(0, 0), (0x1234, 0xffff_ffff), (u64::MAX, u64::MAX)] {
        let mut slot = postcard::to_allocvec(&Some((addr, offset))).unwrap();
        assert!(slot.len() <= wire::REQUEST_SIZE);
        slot.resize(wire::REQUEST_SIZE, 0xee);
        assert_eq!(
            wire::read_launch_request(&slot),
            Some(Some(LaunchRequest { job_request_addr: addr, job_offset: offset }))
        );
    }
    let none = postcard::to_allocvec(&None::<(u64, u64)>).unwrap();
    assert_eq!(wire::read_launch_request(&none), Some(None));
    assert_eq!(wire::read_launch_request(&[0; wire::REQUEST_SIZE]), Some(None));
}

#[test]
fn what_is_no_request_is_told() {
    assert_eq!(wire::read_launch_request(&[]), None);
    assert_eq!(wire::read_launch_request(&[2, 0, 0]), None);
    assert_eq!(wire::read_launch_request(&[1, 0x80]), None);
    assert_eq!(wire::read_launch_request(&[1, 5]), None);
    assert_eq!(wire::read_launch_request(&[1, 5, 6]), Some(Some(LaunchRequest { job_request_addr: 5, job_offset: 6 })));
    let too_large = [1, 0xff, 0xff, 0xff, 0xff, 0xff, 0xff, 0xff, 0xff, 0xff, 2, 0];
    assert_eq!(wire::read_launch_request(&too_large), None);
}

#[test]
fn sizes_are_those_of_postcard() {
    let longest = postcard::to_allocvec(&Some((u64::MAX, u64::MAX))).unwrap();
    assert_eq!(wire::REQUEST_SIZE, longest.len());
    assert_eq!(wire::REQUEST_STRIDE, (wire::REQUEST_SIZE + 63) & !63);
}

#[test]
fn defaults_are_zero() {
    assert_eq!(CoreLaunchData::default(), CoreLaunchData { entry: 0, stack: None });
    assert_eq!(CoreLaunchData::cdefault(), CoreLaunchData::default());
    assert_eq!(LaunchRequest::default(), LaunchRequest { job_request_addr: 0, job_offset: 0 });
    assert_eq!(LaunchData::cdefault(), LaunchData::default());
    assert_eq!(LaunchData::default().flag, 0);
    assert_eq!(LaunchData::default().data_bank, (0, 0));
    assert_eq!(CLaunchData::cdefault(), CLaunchData::default());
    assert_eq!(CLaunchData::default().brisc.stack, None);
}
