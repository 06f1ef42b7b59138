use events::abi::{
    lift_handler_result, lower_error_message, lower_handle_result, lower_unit_result, Lowered,
};
use events::error::{Error, Trap};
use events::host::{call_events_get, call_events_listen, HostContext};
use events::memory::{
    load_i32, slice_str, store_i32, store_many, store_u8, to_bits, to_bits64, to_signed,
};

#[test]
fn store_u8_writes_one_byte() {
    let mut mem = vec![0xaau8; 4];
    assert_eq!(store_u8(&mut mem, 2, 7), Ok(()));
    assert_eq!(mem, vec![0xaa, 0xaa, 7, 0xaa]);
    assert_eq!(store_u8(&mut mem, 3, 1), Ok(()));
    assert_eq!(mem, vec![0xaa, 0xaa, 7, 1]);
}

#[test]
fn store_u8_out_of_bounds_traps_and_writes_nothing() {
    let mut mem = vec![1u8, 2, 3];
    assert_eq!(store_u8(&mut mem, 3, 9), Err(Trap::OutOfBounds));
    assert_eq!(store_u8(&mut mem, -1, 9), Err(Trap::OutOfBounds));
    assert_eq!(store_u8(&mut mem, i32::MIN, 9), Err(Trap::OutOfBounds));
    assert_eq!(mem, vec![1, 2, 3]);
    let mut none: Vec<u8> = vec![];
    assert_eq!(store_u8(&mut none, 0, 9), Err(Trap::OutOfBounds));
}

#[test]
fn store_i32_is_little_endian() {
    let mut mem = vec![0u8; 8];
    assert_eq!(store_i32(&mut mem, 2, 0x0403_0201), Ok(()));
    assert_eq!(mem, vec![0, 0, 1, 2, 3, 4, 0, 0]);
    assert_eq!(store_i32(&mut mem, 4, -2), Ok(()));
    assert_eq!(mem, vec![0, 0, 1, 2, 0xfe, 0xff, 0xff, 0xff]);
}

#[test]
fn store_i32_needs_all_four_bytes_inside() {
    let mut mem = vec![5u8; 6];
    assert_eq!(store_i32(&mut mem, 3, 1), Err(Trap::OutOfBounds));
    assert_eq!(store_i32(&mut mem, 6, 1), Err(Trap::OutOfBounds));
    assert_eq!(store_i32(&mut mem, -4, 1), Err(Trap::OutOfBounds));
    assert_eq!(mem, vec![5u8; 6]);
    assert_eq!(store_i32(&mut mem, 2, 0), Ok(()));
    assert_eq!(mem, vec![5, 5, 0, 0, 0, 0]);
}

#[test]
fn store_many_copies_bytes() {
    let mut mem = vec![0u8; 6];
    assert_eq!(store_many(&mut mem, 1, b"abc"), Ok(()));
    assert_eq!(mem, vec![0, b'a', b'b', b'c', 0, 0]);
    assert_eq!(store_many(&mut mem, 6, b""), Ok(()));
    assert_eq!(store_many(&mut mem, 4, b"xyz"), Err(Trap::OutOfBounds));
    assert_eq!(store_many(&mut mem, 7, b""), Err(Trap::OutOfBounds));
    assert_eq!(mem, vec![0, b'a', b'b', b'c', 0, 0]);
}

#[test]
fn load_i32_reads_little_endian() {
    let mem = vec![9u8, 0x78, 0x56, 0x34, 0x12, 0xff, 0xff, 0xff, 0xff];
    assert_eq!(load_i32(&mem, 1), Ok(0x1234_5678));
    assert_eq!(load_i32(&mem, 5), Ok(-1));
    assert_eq!(load_i32(&mem, 6), Err(Trap::OutOfBounds));
    assert_eq!(load_i32(&mem, -1), Err(Trap::OutOfBounds));
}

#[test]
fn load_reads_back_what_store_wrote() {
    let mut mem = vec![0u8; 16];
    for value in [0, 1, -1, i32::MAX, i32::MIN, 0x0102_0304, -123_456] {
        assert_eq!(store_i32(&mut mem, 8, value), Ok(()));
        assert_eq!(load_i32(&mem, 8), Ok(value));
    }
}

#[test]
fn slice_str_reads_text() {
    let mut mem = vec![0u8; 16];
    store_many(&mut mem, 4, "héllo".as_bytes()).unwrap();
    assert_eq!(slice_str(&mem, 4, 6), Ok("héllo"));
    assert_eq!(slice_str(&mem, 4, 0), Ok(""));
    assert_eq!(slice_str(&mem, 16, 0), Ok(""));
    assert_eq!(slice_str(&mem, 4, 1), Ok("h"));
}

#[test]
fn slice_str_traps_outside_memory() {
    let mem = vec![b'a'; 8];
    assert_eq!(slice_str(&mem, 4, 5), Err(Trap::OutOfBounds));
    assert_eq!(slice_str(&mem, 9, 0), Err(Trap::OutOfBounds));
    assert_eq!(slice_str(&mem, -1, 1), Err(Trap::OutOfBounds));
    assert_eq!(slice_str(&mem, 0, -1), Err(Trap::OutOfBounds));
}

#[test]
fn slice_str_traps_on_bad_utf8() {
    let mem = vec![b'a', 0xff, b'b', 0xc3, 0xa9];
    assert_eq!(slice_str(&mem, 0, 3), Err(Trap::InvalidUtf8));
    assert_eq!(slice_str(&mem, 3, 1), Err(Trap::InvalidUtf8));
    assert_eq!(slice_str(&mem, 3, 2), Ok("é"));
    assert_eq!(slice_str(&mem, 0, 1), Ok("a"));
}

#[test]
fn bit_casts() {
    assert_eq!(to_bits(0), 0);
    assert_eq!(to_bits(-1), u32::MAX);
    assert_eq!(to_bits(i32::MIN), 0x8000_0000);
    assert_eq!(to_bits(i32::MAX), 0x7fff_ffff);
    assert_eq!(to_signed(u32::MAX), -1);
    assert_eq!(to_signed(0x8000_0000), i32::MIN);
    assert_eq!(to_signed(5), 5);
    assert_eq!(to_bits64(-1), u64::MAX);
    assert_eq!(to_bits64(i64::MIN), 1u64 << 63);
    assert_eq!(to_bits64(42), 42);
}

fn complete(lowered: Result<Lowered, Trap>) -> bool {
    matches!(lowered, Ok(Lowered::Complete))
}

#[test]
fn lower_handle_success_layout() {
    let mut mem = vec![0xeeu8; 12];
    assert!(complete(lower_handle_result(&mut mem, 2, Ok(0x0a0b_0c0d))));
    assert_eq!(
        mem,
        vec![0xee, 0xee, 0, 0xee, 0xee, 0xee, 0x0d, 0x0c, 0x0b, 0x0a, 0xee, 0xee]
    );
}

#[test]
fn lower_handle_success_stops_at_first_store_that_does_not_fit() {
    let mut mem = vec![0xeeu8; 6];
    assert!(matches!(
        lower_handle_result(&mut mem, 0, Ok(1)),
        Err(Trap::OutOfBounds)
    ));
    assert_eq!(mem, vec![0, 0xee, 0xee, 0xee, 0xee, 0xee]);
    let mut mem = vec![0xeeu8; 6];
    assert!(matches!(
        lower_handle_result(&mut mem, 6, Ok(1)),
        Err(Trap::OutOfBounds)
    ));
    assert_eq!(mem, vec![0xeeu8; 6]);
}

#[test]
fn lower_error_in_two_steps() {
    let mut mem = vec![0xeeu8; 32];
    let lowered = lower_handle_result(&mut mem, 0, Err(Error::new("boom!")));
    let (error, size) = match lowered {
        Ok(Lowered::NeedsBuffer { error, size }) => (error, size),
        _ => panic!("expected a request for a buffer"),
    };
    assert_eq!(size, 5);
    assert_eq!(error.description(), "boom!");
    assert_eq!(&mem[0..5], &[1, 0xee, 0xee, 0xee, 0]);
    assert_eq!(&mem[5..], &[0xeeu8; 27][..]);
    assert_eq!(lower_error_message(&mut mem, 0, 20, &error), Ok(()));
    assert_eq!(&mem[20..25], b"boom!");
    assert_eq!(&mem[8..12], &[20, 0, 0, 0]);
    assert_eq!(&mem[12..16], &[5, 0, 0, 0]);
    assert_eq!(&mem[0..5], &[1, 0xee, 0xee, 0xee, 0]);
    assert_eq!(&mem[16..20], &[0xee; 4]);
    assert_eq!(&mem[25..], &[0xee; 7]);
}

#[test]
fn lower_error_message_counts_bytes_not_characters() {
    let mut mem = vec![0u8; 32];
    let error = Error::new("é!");
    let lowered = lower_unit_result(&mut mem, 0, Err(error));
    let (error, size) = match lowered {
        Ok(Lowered::NeedsBuffer { error, size }) => (error, size),
        _ => panic!("expected a request for a buffer"),
    };
    assert_eq!(size, 3);
    assert_eq!(lower_error_message(&mut mem, 0, 16, &error), Ok(()));
    assert_eq!(&mem[16..19], "é!".as_bytes());
    assert_eq!(load_i32(&mem, 12), Ok(3));
    assert_eq!(load_i32(&mem, 8), Ok(16));
}

#[test]
fn lower_error_message_traps_when_buffer_is_outside() {
    let mut mem = vec![0u8; 16];
    let error = Error::new("abc");
    assert_eq!(
        lower_error_message(&mut mem, 0, 14, &error),
        Err(Trap::OutOfBounds)
    );
    assert_eq!(mem, vec![0u8; 16]);
    let mut mem = vec![0u8; 14];
    assert_eq!(
        lower_error_message(&mut mem, 0, 4, &error),
        Err(Trap::OutOfBounds)
    );
    assert_eq!(&mem[4..7], b"abc");
    assert_eq!(&mem[8..12], &[0, 0, 0, 0]);
}

#[test]
fn lower_unit_success_layout() {
    let mut mem = vec![9u8; 4];
    assert!(complete(lower_unit_result(&mut mem, 3, Ok(()))));
    assert_eq!(mem, vec![9, 9, 9, 0]);
    assert!(matches!(
        lower_unit_result(&mut mem, 4, Ok(())),
        Err(Trap::OutOfBounds)
    ));
}

#[test]
fn lift_handler_result_reads_pointer_length_and_text() {
    let mut mem = vec![0u8; 64];
    let text = "this event event-3 has been handled";
    store_many(&mut mem, 24, text.as_bytes()).unwrap();
    store_i32(&mut mem, 8, 24).unwrap();
    store_i32(&mut mem, 12, text.len() as i32).unwrap();
    assert_eq!(lift_handler_result(&mem, 8), Ok(text.to_string()));
}

#[test]
fn lift_handler_result_traps() {
    let mut mem = vec![0u8; 16];
    assert_eq!(lift_handler_result(&mem, 12), Err(Trap::OutOfBounds));
    store_i32(&mut mem, 0, 10).unwrap();
    store_i32(&mut mem, 4, 7).unwrap();
    assert_eq!(lift_handler_result(&mem, 0), Err(Trap::OutOfBounds));
    store_i32(&mut mem, 4, 2).unwrap();
    mem[10] = 0xff;
    assert_eq!(lift_handler_result(&mem, 0), Err(Trap::InvalidUtf8));
    mem[10] = b'o';
    mem[11] = b'k';
    assert_eq!(lift_handler_result(&mem, 0), Ok("ok".to_string()));
}

#[test]
fn get_call_writes_the_handle() {
    let mut host = HostContext::new();
    let mut mem = vec![0xeeu8; 16];
    assert!(complete(call_events_get(&mut host, &mut mem, 4)));
    assert_eq!(&mem[4..12], &[0, 0xee, 0xee, 0xee, 0, 0, 0, 0]);
    assert!(complete(call_events_get(&mut host, &mut mem, 4)));
    assert_eq!(&mem[4..12], &[0, 0xee, 0xee, 0xee, 1, 0, 0, 0]);
    assert!(host.is_live(0));
    assert!(host.is_live(1));
}

#[test]
fn get_call_issues_the_handle_even_if_the_write_traps() {
    let mut host = HostContext::new();
    let mut mem = vec![0u8; 4];
    assert!(matches!(
        call_events_get(&mut host, &mut mem, 2),
        Err(Trap::OutOfBounds)
    ));
    assert!(host.is_live(0));
    assert_eq!(mem, vec![0u8; 4]);
}

#[test]
fn listen_call_reads_both_texts_and_writes_the_new_handle() {
    let mut host = HostContext::new();
    let h0 = host.events_get().ok().unwrap();
    let mut mem = vec![0u8; 32];
    store_many(&mut mem, 0, b"rd").unwrap();
    store_many(&mut mem, 2, b"key1").unwrap();
    let lowered = call_events_listen(&mut host, &mut mem, h0 as i32, 0, 2, 2, 4, 16);
    assert!(complete(lowered));
    assert_eq!(mem[16], 0);
    assert_eq!(load_i32(&mem, 20), Ok(1));
    let set = host.event_set(h0).unwrap();
    assert_eq!(set.len(), 1);
    let kept = set.observable(0).unwrap();
    assert_eq!(kept.rd, "rd");
    assert_eq!(kept.key, "key1");
    let copy = host.event_set(1).unwrap();
    assert_eq!(copy.len(), 1);
}

#[test]
fn listen_call_traps_before_registering() {
    let mut host = HostContext::new();
    let h0 = host.events_get().ok().unwrap();
    let mut mem = vec![b'a'; 16];
    mem[5] = 0xff;
    let before = mem.clone();
    assert!(matches!(
        call_events_listen(&mut host, &mut mem, 7, 0, 2, 2, 2, 8),
        Err(Trap::UnknownHandle)
    ));
    assert!(matches!(
        call_events_listen(&mut host, &mut mem, 7, 100, 2, 2, 2, 8),
        Err(Trap::UnknownHandle)
    ));
    assert!(matches!(
        call_events_listen(&mut host, &mut mem, h0 as i32, 15, 2, 5, 1, 8),
        Err(Trap::OutOfBounds)
    ));
    assert!(matches!(
        call_events_listen(&mut host, &mut mem, h0 as i32, 0, 2, 5, 1, 8),
        Err(Trap::InvalidUtf8)
    ));
    assert!(matches!(
        call_events_listen(&mut host, &mut mem, h0 as i32, 5, 1, 0, 100, 8),
        Err(Trap::InvalidUtf8)
    ));
    assert_eq!(mem, before);
    assert_eq!(host.event_set(h0).unwrap().len(), 0);
    assert!(!host.is_live(1));
}
