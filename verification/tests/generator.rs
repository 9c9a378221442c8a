use flaker::generator::compose;
use flaker::generator::equal_state;
use flaker::seed::NetInterface;
use flaker::Generator;
use flaker::SnowFlaker;
use std::collections::HashSet;

fn host_interfaces() -> Vec<NetInterface> {
    vec![
        NetInterface { loopback: true, up: true, hardware_addr: Some([0, 0, 0, 0, 0, 0]) },
        NetInterface {
            loopback: false,
            up: true,
            hardware_addr: Some([0x02, 0x42, 0xac, 0x11, 0x00, 0x02]),
        },
    ]
}

fn decode(id: &str) -> Vec<u8> {
    base64::decode_config(id, base64::URL_SAFE).unwrap()
}

#[test]
fn test_with_seed() {
    assert_eq!(Generator::with_seed([0; 6]), Generator::with_counters([0; 6], 0, 0));
}

#[test]
fn test_generate_value() {
    let generator = Generator::new(&host_interfaces()).unwrap();
    let decoded = base64::decode_config(&generator.generate().unwrap(), base64::URL_SAFE);
    assert!(decoded.is_ok())
}

#[test]
fn test_subsequent_generate_lexically_greater_values() {
    let generator = Generator::new(&host_interfaces()).unwrap();
    let first_value = generator.generate().unwrap();
    let second_value = generator.generate().unwrap();
    assert!(
        first_value < second_value,
        "Expect subsequently generated values to be lexically greater than each other {} {}",
        first_value,
        second_value
    );
    println!("first value = {}", first_value);
    println!("second value = {}", second_value);
}

#[test]
fn test_subsequent_generate_calls_produce_different_values() {
    let mut set = HashSet::new();
    let generator = Generator::new(&host_interfaces()).unwrap();

    for _x in 0..100000 {
        let generated = generator.generate().unwrap();
        assert!(set.insert(generated));
    }
}

#[test]
fn zero_seed_generator_never_repeats_itself() {
    let mut set = HashSet::new();
    let generator = Generator::with_seed([0, 0, 0, 0, 0, 0]);
    for _x in 0..100000 {
        assert!(set.insert(generator.generate().unwrap()));
    }
}

#[test]
fn new_takes_the_seed_from_the_first_suitable_interface() {
    let generator = Generator::new(&host_interfaces()).unwrap();
    let bytes = decode(&generator.generate_at(0));
    assert_eq!(&bytes[6..12], &[0x02, 0x42, 0xac, 0x11, 0x00, 0x02]);
    assert_eq!(generator, Generator::with_counters([0x02, 0x42, 0xac, 0x11, 0x00, 0x02], 0, 1));
}

#[test]
fn new_fails_without_a_suitable_interface() {
    let only_loopback =
        vec![NetInterface { loopback: true, up: true, hardware_addr: Some([1, 2, 3, 4, 5, 6]) }];
    assert!(Generator::new(&only_loopback).is_err());
    assert!(Generator::new(&[]).is_err());
}

#[test]
fn compose_writes_the_three_fields_as_url_safe_text() {
    assert_eq!(compose([0; 6], 0, 0, 0), "AAAAAAAAAAAAAAAAAAAA");
    assert_eq!(compose([1, 2, 3, 4, 5, 6], 0, 0, 0), "AAAAAAAAAQIDBAUGAAAA");
    assert_eq!(compose([0; 6], 0, 0xfbff_ffff_ffff, 0xff_ffff), "-_______AAAAAAAA____");
    assert_eq!(compose([0; 6], 0, 1, 2), "AAAAAAABAAAAAAAAAAAC");
}

#[test]
fn compose_takes_the_later_of_watermark_and_clock() {
    assert_eq!(compose([0; 6], 7, 5, 0), compose([0; 6], 0, 7, 0));
    assert_eq!(compose([0; 6], 5, 7, 0), compose([0; 6], 0, 7, 0));
    assert_eq!(compose([0; 6], 7, 7, 0), compose([0; 6], 0, 7, 0));
    assert_ne!(compose([0; 6], 7, 5, 0), compose([0; 6], 0, 5, 0));
}

#[test]
fn identifier_has_twenty_characters_and_no_padding() {
    let id = Generator::with_seed([9; 6]).generate().unwrap();
    assert_eq!(id.len(), 20);
    assert!(!id.contains('='));
    assert!(id.chars().all(|c| c.is_ascii_alphanumeric() || c == '-' || c == '_'));
}

#[test]
fn forced_counters_give_the_expected_layout() {
    let generator = Generator::with_counters([1, 2, 3, 4, 5, 6], 0x0a0b_0c0d_0e0f, 0x0010_2030);
    let bytes = decode(&generator.generate_at(1));
    assert_eq!(
        bytes,
        vec![0x0a, 0x0b, 0x0c, 0x0d, 0x0e, 0x0f, 1, 2, 3, 4, 5, 6, 0x10, 0x20, 0x30]
    );
}

#[test]
fn fields_are_truncated_to_their_width() {
    let generator =
        Generator::with_counters([1, 2, 3, 4, 5, 6], 0xffee_0a0b_0c0d_0e0f, 0xdead_beef_0110_2030);
    let bytes = decode(&generator.generate_at(1));
    assert_eq!(
        bytes,
        vec![0x0a, 0x0b, 0x0c, 0x0d, 0x0e, 0x0f, 1, 2, 3, 4, 5, 6, 0x10, 0x20, 0x30]
    );
}

#[test]
fn watermark_never_moves_back() {
    let generator = Generator::with_seed([0; 6]);
    let first = decode(&generator.generate_at(1000));
    let second = decode(&generator.generate_at(400));
    let third = decode(&generator.generate_at(1001));
    assert_eq!(&first[0..6], &[0, 0, 0, 0, 0x03, 0xe8]);
    assert_eq!(&second[0..6], &[0, 0, 0, 0, 0x03, 0xe8]);
    assert_eq!(&third[0..6], &[0, 0, 0, 0, 0x03, 0xe9]);
}

#[test]
fn first_call_after_a_jump_ahead_still_carries_the_clock() {
    let generator = Generator::with_counters([0; 6], 10, 0);
    let bytes = decode(&generator.generate_at(0x0102_0304_0506));
    assert_eq!(&bytes[0..6], &[1, 2, 3, 4, 5, 6]);
}

#[test]
fn sequence_counts_up_by_one_from_zero() {
    let generator = Generator::with_seed([0; 6]);
    for expected in 0u8..5 {
        let bytes = decode(&generator.generate_at(0));
        assert_eq!(&bytes[12..15], &[0, 0, expected]);
    }
}

#[test]
fn sequence_counter_wraps_at_the_end_of_its_range() {
    let generator = Generator::with_counters([0; 6], 0, u64::MAX);
    assert_eq!(&decode(&generator.generate_at(0))[12..15], &[0xff, 0xff, 0xff]);
    assert_eq!(&decode(&generator.generate_at(0))[12..15], &[0, 0, 0]);
}

#[test]
fn identifiers_decode_to_the_bytes_that_were_packed() {
    let id = compose([1, 2, 3, 4, 5, 6], 0, 0x0102_0304_0506, 0x0a0b0c);
    assert_eq!(decode(&id), flaker::layout::pack(0x0102_0304_0506, [1, 2, 3, 4, 5, 6], 0x0a0b0c));
}

#[test]
fn sequential_identifiers_ascend_while_the_alphabet_does() {
    let generator = Generator::with_seed([7; 6]);
    let mut previous = generator.generate_at(5);
    for _ in 0..25 {
        let next = generator.generate_at(5);
        assert!(previous < next);
        previous = next;
    }
}

#[test]
fn alphabet_order_breaks_between_letters_and_digits() {
    let before = compose([0; 6], 0, 0, 51);
    let after = compose([0; 6], 0, 0, 52);
    assert!(before.ends_with('z'));
    assert!(after.ends_with('0'));
    assert!(decode(&before) < decode(&after));
    assert!(after < before);
}

#[test]
fn identifiers_repeat_once_the_sequence_field_wraps() {
    assert_eq!(compose([0; 6], 0, 9, 3), compose([0; 6], 0, 9, 3 + (1 << 24)));
    assert_ne!(compose([0; 6], 0, 9, 3), compose([0; 6], 0, 9, 3 + (1 << 24) - 1));
}

#[test]
fn generators_are_equal_by_seed_and_sequence() {
    assert_eq!(Generator::with_seed([1, 2, 3, 4, 5, 6]), Generator::with_seed([1, 2, 3, 4, 5, 6]));
    assert_ne!(Generator::with_seed([1, 2, 3, 4, 5, 6]), Generator::with_seed([1, 2, 3, 4, 5, 7]));
    let used = Generator::with_seed([1, 2, 3, 4, 5, 6]);
    used.generate_at(0);
    assert_ne!(used, Generator::with_seed([1, 2, 3, 4, 5, 6]));
    assert_eq!(used, Generator::with_counters([1, 2, 3, 4, 5, 6], 0, 1));
    assert_eq!(
        Generator::with_counters([0; 6], 5, 3),
        Generator::with_counters([0; 6], 99, 3)
    );
}

#[test]
fn equal_state_compares_seeds_and_sequences() {
    assert!(equal_state(&[1, 2, 3, 4, 5, 6], 4, &[1, 2, 3, 4, 5, 6], 4));
    assert!(!equal_state(&[1, 2, 3, 4, 5, 6], 4, &[1, 2, 3, 4, 5, 6], 5));
    assert!(!equal_state(&[1, 2, 3, 4, 5, 6], 4, &[0, 2, 3, 4, 5, 6], 4));
    assert!(!equal_state(&[1, 2, 3, 4, 5, 6], 4, &[1, 2, 3, 4, 5, 0], 4));
}

#[test]
fn callers_that_share_a_generator_get_distinct_sequence_fields() {
    let generator = std::sync::Arc::new(Generator::with_seed([0; 6]));
    let callers: Vec<std::sync::Arc<Generator>> = (0..8).map(|_| generator.clone()).collect();
    let mut seen = HashSet::new();
    for round in 0..2000u64 {
        for caller in callers.iter() {
            let bytes = decode(&caller.generate_at(round % 3));
            assert!(seen.insert([bytes[12], bytes[13], bytes[14]]));
        }
    }
    assert_eq!(seen.len(), 16000);
}

#[test]
fn generate_with_stamps_the_reading_it_is_given() {
    let generator = Generator::with_seed([1, 2, 3, 4, 5, 6]);
    let id = generator.generate_with(Ok(0x0102_0304_0506)).unwrap();
    assert_eq!(decode(&id), vec![1, 2, 3, 4, 5, 6, 1, 2, 3, 4, 5, 6, 0, 0, 0]);
    assert_eq!(generator, Generator::with_counters([1, 2, 3, 4, 5, 6], 0, 1));
}

#[test]
fn generate_with_passes_the_clock_error_on_and_counts_nothing() {
    let generator = Generator::with_seed([1, 2, 3, 4, 5, 6]);
    assert_eq!(
        generator.generate_with(Err(flaker::clock::ClockError::BeforeEpoch)),
        Err(flaker::clock::ClockError::BeforeEpoch)
    );
    assert_eq!(generator, Generator::with_seed([1, 2, 3, 4, 5, 6]));
    assert_eq!(&decode(&generator.generate_at(0))[12..15], &[0, 0, 0]);
}
