use flaker::clock::low_u64;
use flaker::get_non_loopback_address;
use flaker::layout::copy_seed;
use flaker::layout::pack;
use flaker::layout::put_uint;
use flaker::seed::NetInterface;
use flaker::seed::SeedError;

#[test]
fn pack_lays_out_time_seed_and_sequence() {
    assert_eq!(
        pack(0x0123_4567_89ab_cdef, [1, 2, 3, 4, 5, 6], 0xdead_beef),
        [0x45, 0x67, 0x89, 0xab, 0xcd, 0xef, 1, 2, 3, 4, 5, 6, 0xad, 0xbe, 0xef]
    );
    assert_eq!(pack(0, [0; 6], 0), [0; 15]);
    assert_eq!(
        pack(u64::MAX, [0xff; 6], u64::MAX),
        [0xff; 15]
    );
    assert_eq!(pack(1, [0; 6], 1), [0, 0, 0, 0, 0, 1, 0, 0, 0, 0, 0, 0, 0, 0, 1]);
}

#[test]
fn put_uint_writes_big_endian_and_touches_nothing_else() {
    let mut buffer = [0xaau8; 10];
    put_uint(&mut buffer, 0x0102_0304_0506_0708, 2, 3);
    assert_eq!(buffer, [0xaa, 0xaa, 0x06, 0x07, 0x08, 0xaa, 0xaa, 0xaa, 0xaa, 0xaa]);
    put_uint(&mut buffer, 0x0102_0304_0506_0708, 2, 8);
    assert_eq!(buffer, [0xaa, 0xaa, 1, 2, 3, 4, 5, 6, 7, 8]);
    put_uint(&mut buffer, 0x1234, 0, 0);
    assert_eq!(buffer, [0xaa, 0xaa, 1, 2, 3, 4, 5, 6, 7, 8]);
    put_uint(&mut buffer, 0x1234, 0, 1);
    assert_eq!(buffer, [0x34, 0xaa, 1, 2, 3, 4, 5, 6, 7, 8]);
}

#[test]
fn copy_seed_fills_positions_six_to_eleven() {
    let mut buffer = [0u8; 15];
    copy_seed(&mut buffer, [1, 2, 3, 4, 5, 6]);
    assert_eq!(buffer, [0, 0, 0, 0, 0, 0, 1, 2, 3, 4, 5, 6, 0, 0, 0]);
    let mut exact = [9u8; 12];
    copy_seed(&mut exact, [6, 5, 4, 3, 2, 1]);
    assert_eq!(exact, [9, 9, 9, 9, 9, 9, 6, 5, 4, 3, 2, 1]);
}

#[test]
fn low_u64_keeps_the_low_sixty_four_bits() {
    assert_eq!(low_u64(0), 0);
    assert_eq!(low_u64(1_700_000_000_000), 1_700_000_000_000);
    assert_eq!(low_u64(u64::MAX as u128), u64::MAX);
    assert_eq!(low_u64((1u128 << 64) + 5), 5);
}

#[test]
fn seed_comes_from_the_first_interface_that_is_up_and_not_loopback() {
    let interfaces = [
        NetInterface { loopback: true, up: true, hardware_addr: Some([9; 6]) },
        NetInterface { loopback: false, up: false, hardware_addr: Some([8; 6]) },
        NetInterface { loopback: false, up: true, hardware_addr: Some([1, 2, 3, 4, 5, 6]) },
        NetInterface { loopback: false, up: true, hardware_addr: Some([7; 6]) },
    ];
    assert_eq!(get_non_loopback_address(&interfaces), Ok([1, 2, 3, 4, 5, 6]));
}

#[test]
fn seed_choice_reports_why_it_failed() {
    assert_eq!(get_non_loopback_address(&[]), Err(SeedError::NoInterface));
    let unsuitable = [
        NetInterface { loopback: true, up: true, hardware_addr: Some([9; 6]) },
        NetInterface { loopback: false, up: false, hardware_addr: Some([8; 6]) },
        NetInterface { loopback: true, up: false, hardware_addr: None },
    ];
    assert_eq!(get_non_loopback_address(&unsuitable), Err(SeedError::NoInterface));
    let without_address = [
        NetInterface { loopback: false, up: true, hardware_addr: None },
        NetInterface { loopback: false, up: true, hardware_addr: Some([7; 6]) },
    ];
    assert_eq!(get_non_loopback_address(&without_address), Err(SeedError::NoHardwareAddress));
}

#[test]
fn reading_keeps_the_low_bits_of_the_elapsed_milliseconds() {
    assert_eq!(flaker::clock::reading(Ok(0)), Ok(0));
    assert_eq!(flaker::clock::reading(Ok(1_700_000_000_123)), Ok(1_700_000_000_123));
    assert_eq!(flaker::clock::reading(Ok((1u128 << 64) + 7)), Ok(7));
}

#[test]
fn reading_reports_a_clock_set_before_the_epoch() {
    let later = std::time::UNIX_EPOCH + std::time::Duration::from_millis(1);
    let error = std::time::UNIX_EPOCH.duration_since(later).unwrap_err();
    assert_eq!(flaker::clock::reading(Err(error)), Err(flaker::clock::ClockError::BeforeEpoch));
}
