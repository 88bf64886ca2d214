use roma::backlog::Backlog;
use roma::consts::{
    Direction, HomaRecvmsgFlags, EAGAIN, HOMA_BPAGE_SIZE, HOMA_MAX_BPAGES, HOMA_MAX_MESSAGE_LENGTH,
};
use roma::error::HomaError;
use roma::recv::{
    is_consistent, complete, form_request, page_contribution, pages_for, reassemble, RecvReply,
};
use roma::types::homa_recvmsg_args;
use socket2::SockAddr;

const PAGE: u32 = HOMA_BPAGE_SIZE as u32;

fn peer() -> SockAddr {
    SockAddr::unix("/run/homa-peer").unwrap()
}

fn payload_of(length: usize) -> Vec<u8> {
    (0..length).map(|i| ((i * 31 + i / 251 + 7) % 256) as u8).collect()
}

fn args_naming(pages: &[u32], id: u64, completion_cookie: u64) -> homa_recvmsg_args {
    let mut bpage_offsets = [0u32; HOMA_MAX_BPAGES];
    bpage_offsets[..pages.len()].copy_from_slice(pages);
    homa_recvmsg_args {
        id,
        completion_cookie,
        flags: 0x02,
        num_bpages: pages.len() as u32,
        pad: [0; 2],
        bpage_offsets,
    }
}

fn answer(length: isize, pages: &[u32]) -> RecvReply {
    RecvReply { result: length, errno: 0, args: args_naming(pages, 9, 3), source: peer() }
}

fn failure(errno: i32) -> RecvReply {
    RecvReply { result: -1, errno, args: args_naming(&[], 0, 0), source: peer() }
}

fn deposit(region: &mut [u8], pages: &[u32], payload: &[u8]) {
    for (place, chunk) in payload.chunks(HOMA_BPAGE_SIZE).enumerate() {
        let at = pages[place] as usize;
        region[at..at + chunk.len()].copy_from_slice(chunk);
    }
}

fn backlog_of(pages: &[u32]) -> Backlog {
    let mut backlog = Backlog::new();
    for page in pages {
        assert!(backlog.reclaim(*page));
    }
    backlog
}

fn waiting(backlog: &Backlog) -> Vec<u32> {
    (0..backlog.len()).map(|place| backlog.get(place).unwrap()).collect()
}

#[test]
fn pages_for_is_the_ceiling() {
    assert_eq!(pages_for(0), 0);
    assert_eq!(pages_for(1), 1);
    assert_eq!(pages_for(10), 1);
    assert_eq!(pages_for(65535), 1);
    assert_eq!(pages_for(65536), 1);
    assert_eq!(pages_for(65537), 2);
    assert_eq!(pages_for(3 * HOMA_BPAGE_SIZE + 1), 4);
    assert_eq!(pages_for(HOMA_MAX_MESSAGE_LENGTH), HOMA_MAX_BPAGES);
    assert_eq!(pages_for(usize::MAX), usize::MAX / HOMA_BPAGE_SIZE + 1);
}

#[test]
fn every_page_but_the_last_contributes_a_whole_page() {
    let length = 3 * HOMA_BPAGE_SIZE + 1;
    assert_eq!(page_contribution(length, 4, 0), 65536);
    assert_eq!(page_contribution(length, 4, 1), 65536);
    assert_eq!(page_contribution(length, 4, 2), 65536);
    assert_eq!(page_contribution(length, 4, 3), 1);
    assert_eq!(page_contribution(10, 1, 0), 10);
    assert_eq!(page_contribution(65536, 1, 0), 65536);
    assert_eq!(page_contribution(131072, 2, 1), 65536);
    assert_eq!(page_contribution(1_000_000, 16, 15), 16_960);
}

#[test]
fn contributions_add_up_to_the_length() {
    for length in [1usize, 10, 65535, 65536, 65537, 196_609, 999_999, 1_000_000] {
        let pages = pages_for(length);
        let total: usize = (0..pages).map(|place| page_contribution(length, pages, place)).sum();
        assert_eq!(total, length);
    }
}

#[test]
fn request_offers_the_oldest_pages() {
    let backlog = backlog_of(&[3 * PAGE, 0, 2 * PAGE]);
    let args = form_request(&backlog, HomaRecvmsgFlags::new(Direction::Request, true), 0);
    assert_eq!(args.id, 0);
    assert_eq!(args.completion_cookie, 0);
    assert_eq!(args.flags, 0x05);
    assert_eq!(args.num_bpages, 3);
    assert_eq!(args.pad, [0, 0]);
    assert_eq!(&args.bpage_offsets[..3], &[3 * PAGE, 0, 2 * PAGE]);
    assert!(args.bpage_offsets[3..].iter().all(|offset| *offset == 0));
    assert_eq!(waiting(&backlog), vec![3 * PAGE, 0, 2 * PAGE]);
}

#[test]
fn request_from_an_empty_backlog_offers_nothing() {
    let backlog = Backlog::new();
    let args = form_request(&backlog, HomaRecvmsgFlags::new(Direction::Response, false), 77);
    assert_eq!(args.id, 77);
    assert_eq!(args.flags, 0x02);
    assert_eq!(args.num_bpages, 0);
    assert_eq!(args.bpage_offsets, [0u32; HOMA_MAX_BPAGES]);
}

#[test]
fn request_offers_no_more_than_a_descriptor_holds() {
    let pages: Vec<u32> = (0..20).map(|index| index * PAGE).collect();
    let backlog = backlog_of(&pages);
    let args = form_request(&backlog, HomaRecvmsgFlags::new(Direction::Request, false), 0);
    assert_eq!(args.num_bpages, 16);
    assert_eq!(&args.bpage_offsets[..], &pages[..16]);
    assert_eq!(backlog.len(), 20);
}

#[test]
fn ten_bytes_arrive_in_one_page() {
    let mut region = vec![0u8; 4 * HOMA_BPAGE_SIZE];
    let payload = payload_of(10);
    deposit(&mut region, &[2 * PAGE], &payload);
    let mut backlog = backlog_of(&[2 * PAGE]);
    let mut buf = vec![0xEEu8; 64];
    let request = form_request(&backlog, HomaRecvmsgFlags::new(Direction::Response, false), 9);
    assert_eq!(request.num_bpages, 1);
    let reply = answer(10, &[2 * PAGE]);
    assert_eq!(reply.args.num_bpages, 1);

    let (length, source, id, cookie) = complete(&mut backlog, &region, &mut buf, reply).unwrap();

    assert_eq!(length, 10);
    assert_eq!(source, peer());
    assert_eq!(id, 9);
    assert_eq!(cookie, 3);
    assert_eq!(&buf[..10], &payload[..]);
    assert!(buf[10..].iter().all(|byte| *byte == 0xEE));
    assert_eq!(waiting(&backlog), vec![2 * PAGE]);
}

#[test]
fn three_pages_and_a_byte_arrive_in_four_pages() {
    let length = 3 * HOMA_BPAGE_SIZE + 1;
    let pages = [5 * PAGE, 0, 7 * PAGE, 2 * PAGE];
    let mut region = vec![0u8; 8 * HOMA_BPAGE_SIZE];
    let payload = payload_of(length);
    deposit(&mut region, &pages, &payload);
    let mut backlog = backlog_of(&[0, 2 * PAGE, 5 * PAGE, 7 * PAGE]);
    let mut buf = vec![0u8; HOMA_MAX_MESSAGE_LENGTH];
    let request = form_request(&backlog, HomaRecvmsgFlags::new(Direction::Response, false), 9);
    assert_eq!(request.num_bpages, 4);
    let reply = answer(length as isize, &pages);
    assert_eq!(reply.args.num_bpages, 4);
    assert_eq!(pages_for(length), 4);
    assert_eq!(page_contribution(length, 4, 3), 1);

    let (received, _, _, _) = complete(&mut backlog, &region, &mut buf, reply).unwrap();

    assert_eq!(received, length);
    assert_eq!(&buf[..length], &payload[..]);
    assert_eq!(buf[length - 1], region[2 * HOMA_BPAGE_SIZE]);
    assert_eq!(buf[length], 0);
    assert_eq!(waiting(&backlog), pages.to_vec());
}

#[test]
fn payloads_of_many_lengths_come_back_unchanged() {
    let mut region = vec![0u8; 16 * HOMA_BPAGE_SIZE];
    let mut buf = vec![0u8; HOMA_MAX_MESSAGE_LENGTH];
    let mut backlog = Backlog::new();
    let mut length = 1;
    loop {
        let count = pages_for(length);
        let pages: Vec<u32> = (0..count as u32).map(|index| (15 - index) * PAGE).collect();
        let payload = payload_of(length);
        deposit(&mut region, &pages, &payload);
        let request = form_request(&backlog, HomaRecvmsgFlags::new(Direction::Response, false), 1);
        assert_eq!(request.num_bpages as usize, backlog.len());

        let reply = answer(length as isize, &pages);
        let (received, _, _, _) = complete(&mut backlog, &region, &mut buf, reply).unwrap();

        assert_eq!(received, payload.len());
        assert_eq!(&buf[..received], &payload[..]);
        assert_eq!(waiting(&backlog), pages);
        if length == HOMA_MAX_MESSAGE_LENGTH {
            break;
        }
        length = (length * 2).min(HOMA_MAX_MESSAGE_LENGTH);
    }
}

#[test]
fn a_message_that_fills_its_pages_exactly() {
    let length = 2 * HOMA_BPAGE_SIZE;
    let pages = [PAGE, 0];
    let mut region = vec![0u8; 2 * HOMA_BPAGE_SIZE];
    let payload = payload_of(length);
    deposit(&mut region, &pages, &payload);
    let mut backlog = Backlog::new();
    let mut buf = vec![0u8; length];

    let (received, _, _, _) =
        complete(&mut backlog, &region, &mut buf, answer(length as isize, &pages)).unwrap();

    assert_eq!(received, length);
    assert_eq!(buf, payload);
}

#[test]
fn an_empty_message_uses_no_page() {
    let region = vec![0u8; 2 * HOMA_BPAGE_SIZE];
    let mut backlog = backlog_of(&[PAGE]);
    let mut buf = vec![0x55u8; 8];

    let (length, _, id, _) = complete(&mut backlog, &region, &mut buf, answer(0, &[])).unwrap();

    assert_eq!(length, 0);
    assert_eq!(id, 9);
    assert_eq!(buf, vec![0x55u8; 8]);
    assert!(backlog.is_empty());
}

#[test]
fn an_empty_message_that_claims_a_page_is_refused() {
    let region = vec![0u8; 2 * HOMA_BPAGE_SIZE];
    let mut backlog = backlog_of(&[PAGE]);
    let mut buf = vec![0x55u8; 8];

    let outcome = complete(&mut backlog, &region, &mut buf, answer(0, &[0]));

    assert_eq!(outcome.unwrap_err(), HomaError::ProtocolViolation);
    assert_eq!(waiting(&backlog), vec![PAGE]);
}

#[test]
fn an_empty_buffer_takes_an_empty_message() {
    let region = vec![0u8; HOMA_BPAGE_SIZE];
    let mut backlog = Backlog::new();
    let mut buf: Vec<u8> = Vec::new();
    let (length, _, _, _) = complete(&mut backlog, &region, &mut buf, answer(0, &[])).unwrap();
    assert_eq!(length, 0);
}

#[test]
fn a_short_buffer_loses_the_message_but_no_page() {
    let pages = [3 * PAGE, PAGE];
    let length = HOMA_BPAGE_SIZE + 100;
    let mut region = vec![0u8; 4 * HOMA_BPAGE_SIZE];
    deposit(&mut region, &pages, &payload_of(length));
    let mut backlog = backlog_of(&[0, 2 * PAGE]);
    let mut buf = vec![0x11u8; length - 1];

    let outcome = complete(&mut backlog, &region, &mut buf, answer(length as isize, &pages));

    assert_eq!(outcome.unwrap_err(), HomaError::BufferTooSmall);
    assert_eq!(buf, vec![0x11u8; length - 1]);
    assert_eq!(waiting(&backlog), vec![3 * PAGE, PAGE]);
}

#[test]
fn a_buffer_of_exactly_the_length_is_enough() {
    let mut region = vec![0u8; HOMA_BPAGE_SIZE];
    let payload = payload_of(100);
    deposit(&mut region, &[0], &payload);
    let mut backlog = Backlog::new();
    let mut buf = vec![0u8; 100];
    let (length, _, _, _) = complete(&mut backlog, &region, &mut buf, answer(100, &[0])).unwrap();
    assert_eq!(length, 100);
    assert_eq!(buf, payload);
}

#[test]
fn a_receive_that_would_block_changes_nothing() {
    let region = vec![0u8; 4 * HOMA_BPAGE_SIZE];
    let mut backlog = backlog_of(&[2 * PAGE, 0]);
    let mut buf = vec![0x77u8; 32];

    let outcome = complete(&mut backlog, &region, &mut buf, failure(EAGAIN));

    assert_eq!(outcome.unwrap_err(), HomaError::WouldBlock);
    assert_eq!(waiting(&backlog), vec![2 * PAGE, 0]);
    assert_eq!(buf, vec![0x77u8; 32]);
}

#[test]
fn would_block_is_error_number_eleven() {
    assert_eq!(EAGAIN, 11);
    let region = vec![0u8; HOMA_BPAGE_SIZE];
    let mut backlog = Backlog::new();
    let mut buf = vec![0u8; 4];
    let outcome = complete(&mut backlog, &region, &mut buf, failure(11));
    assert_eq!(outcome.unwrap_err(), HomaError::WouldBlock);
}

#[test]
fn any_other_failure_is_a_transport_error() {
    let region = vec![0u8; 4 * HOMA_BPAGE_SIZE];
    for errno in [0, 4, 22, 108, -5] {
        let mut backlog = backlog_of(&[PAGE]);
        let mut buf = vec![0x77u8; 32];
        let outcome = complete(&mut backlog, &region, &mut buf, failure(errno));
        assert_eq!(outcome.unwrap_err(), HomaError::TransportError(errno));
        assert_eq!(waiting(&backlog), vec![PAGE]);
        assert_eq!(buf, vec![0x77u8; 32]);
    }
}

#[test]
fn a_negative_result_wins_over_what_the_descriptor_says() {
    let region = vec![0u8; 4 * HOMA_BPAGE_SIZE];
    let mut backlog = Backlog::new();
    let mut buf = vec![0u8; 32];
    let reply = RecvReply { result: -7, errno: 5, args: args_naming(&[0], 1, 1), source: peer() };
    let outcome = complete(&mut backlog, &region, &mut buf, reply);
    assert_eq!(outcome.unwrap_err(), HomaError::TransportError(5));
    assert!(backlog.is_empty());
}

fn refused(backlog_pages: &[u32], region_pages: usize, length: isize, args: homa_recvmsg_args) {
    let region = vec![0u8; region_pages * HOMA_BPAGE_SIZE];
    let mut backlog = backlog_of(backlog_pages);
    let mut buf = vec![0x42u8; HOMA_MAX_MESSAGE_LENGTH];
    assert!(!is_consistent(&backlog, region.len(), &args, length as usize));
    let reply = RecvReply { result: length, errno: 0, args, source: peer() };
    let outcome = complete(&mut backlog, &region, &mut buf, reply);
    assert_eq!(outcome.unwrap_err(), HomaError::ProtocolViolation);
    assert_eq!(waiting(&backlog), backlog_pages.to_vec());
    assert!(buf.iter().all(|byte| *byte == 0x42));
}

#[test]
fn too_few_pages_for_the_length_are_refused() {
    refused(&[0], 4, 65537, args_naming(&[PAGE], 1, 0));
}

#[test]
fn too_many_pages_for_the_length_are_refused() {
    refused(&[0], 4, 65536, args_naming(&[PAGE, 2 * PAGE], 1, 0));
    refused(&[0], 4, 10, args_naming(&[PAGE, 2 * PAGE], 1, 0));
}

#[test]
fn pages_without_a_message_are_refused() {
    refused(&[], 4, 10, args_naming(&[], 1, 0));
}

#[test]
fn more_pages_than_a_descriptor_holds_are_refused() {
    let mut args = args_naming(&[], 1, 0);
    args.num_bpages = 17;
    refused(&[], 32, 17 * 65536, args);
    let mut args = args_naming(&[], 1, 0);
    args.num_bpages = u32::MAX;
    refused(&[], 32, 1000, args);
}

#[test]
fn a_page_off_the_page_grid_is_refused() {
    refused(&[], 4, 10, args_naming(&[1], 1, 0));
    refused(&[], 4, 10, args_naming(&[PAGE + 4096], 1, 0));
    refused(&[], 4, 65537, args_naming(&[0, 2 * PAGE - 1], 1, 0));
}

#[test]
fn a_page_beyond_the_region_is_refused() {
    refused(&[], 4, 10, args_naming(&[4 * PAGE], 1, 0));
    refused(&[], 4, 10, args_naming(&[u32::MAX - PAGE + 1], 1, 0));
    refused(&[], 0, 10, args_naming(&[0], 1, 0));
}

#[test]
fn a_page_named_twice_is_refused() {
    refused(&[], 4, 3 * 65536, args_naming(&[PAGE, 2 * PAGE, PAGE], 1, 0));
    refused(&[], 4, 2 * 65536, args_naming(&[0, 0], 1, 0));
}

#[test]
fn a_page_that_still_waits_is_refused() {
    let pages: Vec<u32> = (0..18).map(|index| index * PAGE).collect();
    refused(&pages, 32, 10, args_naming(&[16 * PAGE], 1, 0));
    refused(&pages, 32, 65537, args_naming(&[20 * PAGE, 17 * PAGE], 1, 0));
}

#[test]
fn a_page_of_the_budget_may_come_back_filled() {
    let pages: Vec<u32> = (0..18).map(|index| index * PAGE).collect();
    let mut region = vec![0u8; 32 * HOMA_BPAGE_SIZE];
    let payload = payload_of(70_000);
    deposit(&mut region, &[15 * PAGE, 0], &payload);
    let mut backlog = backlog_of(&pages);
    let mut buf = vec![0u8; 70_000];

    let reply = answer(70_000, &[15 * PAGE, 0]);
    assert!(is_consistent(&backlog, region.len(), &reply.args, 70_000));
    let (length, _, _, _) = complete(&mut backlog, &region, &mut buf, reply).unwrap();

    assert_eq!(length, 70_000);
    assert_eq!(buf, payload);
    assert_eq!(waiting(&backlog), vec![16 * PAGE, 17 * PAGE, 15 * PAGE, 0]);
}

#[test]
fn the_budget_leaves_and_the_message_pages_join() {
    let mut region = vec![0u8; 8 * HOMA_BPAGE_SIZE];
    deposit(&mut region, &[6 * PAGE, 7 * PAGE], &payload_of(100_000));
    let mut backlog = backlog_of(&[0, PAGE, 2 * PAGE]);
    let mut buf = vec![0u8; 100_000];

    complete(&mut backlog, &region, &mut buf, answer(100_000, &[6 * PAGE, 7 * PAGE])).unwrap();

    assert_eq!(waiting(&backlog), vec![6 * PAGE, 7 * PAGE]);
}

#[test]
fn pages_unused_by_the_message_are_not_put_back() {
    let mut region = vec![0u8; 8 * HOMA_BPAGE_SIZE];
    deposit(&mut region, &[PAGE], &payload_of(10));
    let mut backlog = backlog_of(&[0, PAGE, 2 * PAGE, 3 * PAGE]);
    let mut buf = vec![0u8; 10];

    complete(&mut backlog, &region, &mut buf, answer(10, &[PAGE])).unwrap();

    assert_eq!(waiting(&backlog), vec![PAGE]);
    assert!(!backlog.contains(0));
    assert!(!backlog.contains(2 * PAGE));
    assert!(!backlog.contains(3 * PAGE));
}

#[test]
fn the_source_is_handed_on_for_requests_and_responses() {
    let region = vec![0u8; HOMA_BPAGE_SIZE];
    for flags in [0x01, 0x02, 0x05, 0x06] {
        let mut backlog = Backlog::new();
        let mut buf = vec![0u8; 4];
        let mut args = args_naming(&[0], 5, 0);
        args.flags = flags;
        let source = SockAddr::unix(format!("/run/homa-{}", flags)).unwrap();
        let reply = RecvReply { result: 4, errno: 0, args, source: source.clone() };
        let (_, reported, _, _) = complete(&mut backlog, &region, &mut buf, reply).unwrap();
        assert_eq!(reported, source);
    }
}

#[test]
fn identifier_and_cookie_are_those_of_the_answer() {
    let region = vec![0u8; HOMA_BPAGE_SIZE];
    let mut backlog = Backlog::new();
    let mut buf = vec![0u8; 4];
    let reply = RecvReply {
        result: 1,
        errno: 0,
        args: args_naming(&[0], u64::MAX, 0xDEAD_BEEF),
        source: peer(),
    };
    let (length, _, id, cookie) = complete(&mut backlog, &region, &mut buf, reply).unwrap();
    assert_eq!((length, id, cookie), (1, u64::MAX, 0xDEAD_BEEF));
}

#[test]
fn reassemble_keeps_what_lies_beyond_the_message() {
    let mut region = vec![0u8; 4 * HOMA_BPAGE_SIZE];
    let payload = payload_of(HOMA_BPAGE_SIZE + 1);
    deposit(&mut region, &[3 * PAGE, PAGE], &payload);
    let mut buf = vec![0x99u8; HOMA_BPAGE_SIZE + 3];

    reassemble(&region, &args_naming(&[3 * PAGE, PAGE], 0, 0), HOMA_BPAGE_SIZE + 1, &mut buf);

    assert_eq!(&buf[..HOMA_BPAGE_SIZE + 1], &payload[..]);
    assert_eq!(&buf[HOMA_BPAGE_SIZE + 1..], &[0x99, 0x99]);
}

#[test]
fn the_backlog_never_holds_a_page_twice_over_many_receives() {
    let region = vec![0u8; 16 * HOMA_BPAGE_SIZE];
    let mut backlog = Backlog::new();
    let mut buf = vec![0u8; HOMA_MAX_MESSAGE_LENGTH];
    let rounds: [&[u32]; 6] = [
        &[0, PAGE, 2 * PAGE],
        &[3 * PAGE],
        &[0, 3 * PAGE],
        &[],
        &[15 * PAGE, 14 * PAGE, 0, 3 * PAGE],
        &[PAGE],
    ];
    for pages in rounds {
        let length = if pages.is_empty() { 0 } else { (pages.len() - 1) * HOMA_BPAGE_SIZE + 17 };
        let outcome = complete(&mut backlog, &region, &mut buf, answer(length as isize, pages));
        assert_eq!(outcome.unwrap().0, length);
        let mut seen = std::collections::HashSet::new();
        for page in waiting(&backlog) {
            assert!(seen.insert(page));
            assert_eq!(page % PAGE, 0);
            assert!((page as usize) < region.len());
        }
        assert!(backlog.len() <= 16);
        assert_eq!(waiting(&backlog), pages.to_vec());
    }
}
