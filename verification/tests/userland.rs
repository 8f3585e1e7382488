use r9::child_state::{child_state, handle_at, handles, n_handles};
use r9::bind_table::{BindTable, Pair, NENT, R_EFULL, R_ENOENT, R_OK};
use r9::builtin::{memcmp, memcpy, memmove, memset};
use r9::console::{
    reply_channel, resolve_reply, resolve_request, write_answer, write_payloads,
    ConsoleCache, ConsoleError, ConsoleLink,
};
use r9::heap::{alloc_page_result, pages_for, Heap};
use r9::mailbox::{
    answered_property, answered_range, arm_memory_words, configure_answer, decode_request,
    fb_allocate_words, fb_setup_words, hex_padded_digits, memory_line, property_answer,
    property_words, request_word, unknown_answer, MailboxRequest, TAG_FB_ALLOCATE,
    TAG_GET_ARM_MEMORY,
};
use r9::nameserver::{
    bind_request, encode_pair, name_request, serve, serve_routed, OP_BIND, OP_RESOLVE, OP_UNBIND,
};
use r9::print::{print_fmt, print_str};
use r9::process::{
    kill_result, set_priority_result, spawn_result, wait_any_result, wait_result, KillError,
    Priority, SetPrioError, SpawnErr, SyscallCodes, WaitError,
};
use r9::time::{Duration, COUNTER_FREQ};

const CODES: SyscallCodes = SyscallCodes {
    spawn_bad_index: u64::MAX,
    spawn_no_slot: u64::MAX - 1,
    spawn_bad_state: u64::MAX - 2,
    spawn_err_min: u64::MAX - 15,
    wait_bad_id: u64::MAX,
    wait_timeout: u64::MAX - 1,
    kill_bad_id: u64::MAX,
    setprio_bad_prio: 2,
};

fn pieces(parts: &[&str]) -> Vec<Vec<u8>> {
    parts.iter().map(|p| p.as_bytes().to_vec()).collect()
}

#[test]
fn nameserver_binds_then_resolves_the_pair() {
    let mut t = BindTable::new();
    let pair = Pair { in_h: 3, out_h: 4 };
    let req = bind_request(b"/dev/console", pair, 9);
    let routed = serve_routed(&mut t, OP_BIND, &req);
    assert_eq!(routed.reply_chan, 9);
    assert_eq!(routed.answer.result, R_OK);
    assert!(routed.answer.payload.is_empty());

    let res = name_request(b"/dev/console", 11);
    let routed = serve_routed(&mut t, OP_RESOLVE, &res);
    assert_eq!(routed.reply_chan, 11);
    assert_eq!(routed.answer.result, R_OK);
    assert_eq!(routed.answer.payload, vec![3, 0, 0, 0, 4, 0, 0, 0]);
}

#[test]
fn nameserver_unknown_names_and_verbs_are_enoent() {
    let mut t = BindTable::new();
    let a = serve(&mut t, OP_RESOLVE, b"/dev/none");
    assert_eq!(a.result, R_ENOENT);
    assert!(a.payload.is_empty());
    let a = serve(&mut t, OP_UNBIND, b"/dev/none");
    assert_eq!(a.result, R_ENOENT);
    let a = serve(&mut t, 7, b"/dev/none");
    assert_eq!(a.result, R_ENOENT);
}

#[test]
fn rebinding_in_a_full_table_takes_no_new_slot() {
    let mut t = BindTable::new();
    for i in 0..NENT {
        let name = format!("/n{i}");
        assert_eq!(t.bind(name.as_bytes(), Pair { in_h: i as u32, out_h: 0 }), R_OK);
    }
    assert_eq!(t.bind(b"/n3", Pair { in_h: 99, out_h: 98 }), R_OK, "a bound name rebinds in a full table");
    assert_eq!(t.resolve(b"/n3"), Some(Pair { in_h: 99, out_h: 98 }));
    assert_eq!(t.resolve(b"/n2"), Some(Pair { in_h: 2, out_h: 0 }));
    assert_eq!(t.bind(b"/other", Pair { in_h: 1, out_h: 1 }), R_EFULL, "still full, no slot was taken");
}

#[test]
fn nameserver_unbind_withdraws_the_name() {
    let mut t = BindTable::new();
    let mut bind = b"/dev/mailbox".to_vec();
    bind.extend_from_slice(&encode_pair(Pair { in_h: 1, out_h: 2 }));
    assert_eq!(serve(&mut t, OP_BIND, &bind).result, R_OK);
    assert_eq!(serve(&mut t, OP_UNBIND, b"/dev/mailbox").result, R_OK);
    assert_eq!(serve(&mut t, OP_RESOLVE, b"/dev/mailbox").result, R_ENOENT);
}

#[test]
fn nameserver_full_table_refuses_a_new_name() {
    let mut t = BindTable::new();
    for i in 0..NENT as u8 {
        let mut bind = vec![b'n', b'0' + i];
        bind.extend_from_slice(&encode_pair(Pair { in_h: i as u32, out_h: 0 }));
        assert_eq!(serve(&mut t, OP_BIND, &bind).result, R_OK);
    }
    let mut bind = b"late".to_vec();
    bind.extend_from_slice(&encode_pair(Pair { in_h: 1, out_h: 1 }));
    assert_eq!(serve(&mut t, OP_BIND, &bind).result, R_EFULL);
    let mut rebind = vec![b'n', b'0'];
    rebind.extend_from_slice(&encode_pair(Pair { in_h: 7, out_h: 8 }));
    assert_eq!(serve(&mut t, OP_BIND, &rebind).result, R_OK);
    assert_eq!(serve(&mut t, OP_RESOLVE, b"n0").payload, vec![7, 0, 0, 0, 8, 0, 0, 0]);
}

#[test]
fn console_write_is_cut_into_chunks_behind_the_reply_channel() {
    let data = vec![b'x'; 600];
    let payloads = write_payloads(0x1_0000_0005, &data);
    assert_eq!(payloads.len(), 3);
    assert_eq!(payloads[0].len(), 256);
    assert_eq!(payloads[1].len(), 256);
    assert_eq!(payloads[2].len(), 4 + 96);
    for p in &payloads {
        assert_eq!(&p[..4], &[5, 0, 0, 0]);
        assert!(p[4..].iter().all(|b| *b == b'x'));
    }
    assert!(write_payloads(5, &[]).is_empty());
}

#[test]
fn console_answers_map_to_errors() {
    let closed = 0xffff;
    assert_eq!(write_answer(0, closed), Ok(()));
    assert_eq!(write_answer(3, closed), Err(ConsoleError::Ipc));
    assert_eq!(write_answer(closed, closed), Err(ConsoleError::Closed));
}

#[test]
fn console_resolve_request_and_reply() {
    let req = resolve_request(6);
    let mut want = b"/dev/console".to_vec();
    want.extend_from_slice(&[6, 0, 0, 0]);
    assert_eq!(req, want);
    let reply = [9, 1, 0, 0, 4, 0, 0, 0];
    assert_eq!(resolve_reply(0, 8, &reply, 0xffff), Ok(0x109));
    assert_eq!(resolve_reply(0, 4, &reply, 0xffff), Err(ConsoleError::Ipc));
    assert_eq!(resolve_reply(1, 8, &reply, 0xffff), Err(ConsoleError::Ipc));
    assert_eq!(resolve_reply(0xffff, 8, &reply, 0xffff), Err(ConsoleError::Closed));
}

#[test]
fn console_reply_channel_needs_a_resolve() {
    let mut cache = ConsoleCache::new();
    assert_eq!(reply_channel(&cache), Err(ConsoleError::Ipc));
    cache.set(ConsoleLink { in_h: 2, reply_h: 7 });
    assert_eq!(reply_channel(&cache), Ok(7));
    assert_eq!(cache.get(), Some(ConsoleLink { in_h: 2, reply_h: 7 }));
}

#[test]
fn console_println_cuts_with_ellipsis() {
    assert_eq!(r9::console::println(&pieces(&["hello ", "world"])), b"hello world\n".to_vec());
    let long = "y".repeat(250);
    let line = r9::console::println(&pieces(&[&long, "0123456789"]));
    let mut want = "y".repeat(247).into_bytes();
    want.extend_from_slice(b"...\n");
    assert_eq!(line, want);
    let exact = "z".repeat(256);
    assert_eq!(r9::console::println(&pieces(&[&exact])).len(), 257);
    let huge = "w".repeat(300);
    assert_eq!(r9::console::println(&pieces(&[&huge])), b"...\n".to_vec(), "a first piece too long for the line still ends cut");
    assert_eq!(print_fmt(&pieces(&["ab", &huge])), b"...\n".to_vec());
}

#[test]
fn debug_print_frames_lines() {
    assert_eq!(print_str(b"boot"), b"boot\n".to_vec());
    let long = vec![b'a'; 300];
    let line = print_str(&long);
    assert_eq!(line.len(), 259);
    assert_eq!(line[258], b'\n');
    let cut = print_fmt(&pieces(&[&"b".repeat(258), "c"]));
    assert_eq!(cut.len(), 259);
    assert_eq!(&cut[255..], b"...\n");
}

#[test]
fn durations_and_deadlines() {
    assert_eq!(Duration::from_secs(2).ticks, 2 * COUNTER_FREQ);
    assert_eq!(Duration::from_ticks(7).ticks, 7);
    assert_eq!(Duration::deadline_from(100, Duration::from_ticks(5)), 105);
    assert_eq!(Duration::deadline_from(u64::MAX - 1, Duration::from_ticks(5)), u64::MAX);
    assert!(Duration::from_ticks(1) < Duration::from_ticks(2));
}

#[test]
fn heap_rounds_to_pages_and_frees_the_top() {
    assert_eq!(pages_for(0, 4096), 1);
    assert_eq!(pages_for(1, 4096), 1);
    assert_eq!(pages_for(4096, 4096), 1);
    assert_eq!(pages_for(4097, 4096), 2);
    assert_eq!(Heap::request(64 * 1024, 4096), 64 * 1024);
    let mut h = Heap::new();
    assert_eq!(h.grant(1, 4096, 4096), None);
    assert_eq!(h.brk(), 0);
    assert_eq!(h.grant(0x10000, 4096, 4096), Some(0x10000));
    assert_eq!(h.grant(0x11000, 0x10000, 4096), Some(0x11000));
    assert_eq!(h.brk(), 0x21000);
    assert!(!h.release(0x10000, 16, 4096), "a block below the top is not given back");
    assert_eq!(h.brk(), 0x21000);
    assert!(h.release(0x11000, 64 * 1024, 4096));
    assert_eq!(h.brk(), 0x11000);
    assert_eq!(alloc_page_result(1, 5, 4096), None);
    assert_eq!(alloc_page_result(0x5000, 0x9000, 4096), Some((0x5000, 0x9000)));
}

#[test]
fn process_answers_decode() {
    assert_eq!(spawn_result(3, &CODES).map(|p| p.as_usize()), Ok(3));
    assert_eq!(spawn_result(u64::MAX, &CODES).map(|p| p.as_usize()), Err(SpawnErr::BadIndex));
    assert_eq!(spawn_result(u64::MAX - 1, &CODES).map(|p| p.as_usize()), Err(SpawnErr::NoSlot));
    assert_eq!(spawn_result(u64::MAX - 2, &CODES).map(|p| p.as_usize()), Err(SpawnErr::BadState));
    assert_eq!(spawn_result(u64::MAX - 5, &CODES).map(|p| p.as_usize()), Err(SpawnErr::BadState));
    assert_eq!(wait_result(4, 17, &CODES), Ok(17));
    assert_eq!(wait_result(u64::MAX, 0, &CODES), Err(WaitError::BadId));
    assert_eq!(wait_result(u64::MAX - 1, 0, &CODES), Err(WaitError::Timeout));
    assert_eq!(wait_any_result(4, 17, &CODES).map(|(p, s)| (p.as_usize(), s)), Ok((4, 17)));
    assert_eq!(kill_result(0, &CODES), Ok(()));
    assert_eq!(kill_result(u64::MAX, &CODES), Err(KillError::BadId));
    assert_eq!(set_priority_result(0, &CODES), Ok(()));
    assert_eq!(set_priority_result(2, &CODES), Err(SetPrioError::BadPrio));
    assert_eq!(set_priority_result(1, &CODES), Err(SetPrioError::BadId));
}

#[test]
fn priorities_order_by_level() {
    assert_eq!(Priority::new(7).level(), 7);
    assert_eq!(Priority::min_level().level(), 0);
    assert_eq!(Priority::max_level().level(), 254);
    assert_eq!(Priority::idle().level(), 255);
    assert!(Priority::min_level() < Priority::max_level());
}

#[test]
fn machine_exit_words() {
    assert_eq!(r9::riscv_qemu::exit(0), 0x5555);
    assert_eq!(r9::riscv_qemu::exit(1), 0x1_3333);
    assert_eq!(r9::riscv_qemu::exit(42), (42 << 16) | 0x3333);
    assert_eq!(r9::riscv_qemu::exit(0x10000), 0xffff_3333, "a large code still fails");
    assert_eq!(r9::riscv_qemu::exit(u32::MAX), 0xffff_3333);
    assert_eq!(r9::x86_qemu::exit(0x10), (0xf4, 0x10));
}

#[test]
fn mailbox_property_buffers() {
    let setup = fb_setup_words(640, 480, 32);
    assert_eq!(setup.len(), 16);
    assert_eq!(&setup[..7], &[64, 0, 0x0004_8003, 8, 0, 640, 480]);
    assert_eq!(setup[10], 32);
    let alloc = fb_allocate_words();
    assert_eq!(alloc.len(), 32);
    assert_eq!(&alloc[..8], &[32, 0, TAG_FB_ALLOCATE, 8, 0, 0, 0, 0]);
    assert_eq!(property_words(0x0001_0002), vec![24, 0, 0x0001_0002, 4, 0, 0]);
    assert_eq!(arm_memory_words()[2], TAG_GET_ARM_MEMORY);
    let answered = [32, 0x8000_0000, TAG_GET_ARM_MEMORY, 8, 0x8000_0008, 0, 0x3b40_0000, 0];
    assert_eq!(answered_range(&answered), (0, 0x3b40_0000));
    assert_eq!(answered_property(&answered), 0);
    assert_eq!(request_word(0x1_2345_678f), 0x2345_6788);
}

#[test]
fn mailbox_requests_and_answers() {
    let mut buf = [0u8; 64];
    buf[2..6].copy_from_slice(&640u32.to_le_bytes());
    buf[6..10].copy_from_slice(&480u32.to_le_bytes());
    buf[10..14].copy_from_slice(&32u32.to_le_bytes());
    assert_eq!(decode_request(&buf, 14), MailboxRequest::ConfigureFb(640, 480, 32));
    assert_eq!(decode_request(&buf, 13), MailboxRequest::Short(0));
    buf[0] = 1;
    assert_eq!(decode_request(&buf, 6), MailboxRequest::GetProperty(640));
    assert_eq!(decode_request(&buf, 5), MailboxRequest::Short(1));
    buf[0] = 9;
    assert_eq!(decode_request(&buf, 100), MailboxRequest::Other(9));
    let a = configure_answer(0x1_0000_0002, 0x30);
    assert_eq!(a, vec![0, 2, 0, 0, 0, 1, 0, 0, 0, 0x30, 0, 0, 0, 0, 0, 0, 0]);
    assert_eq!(property_answer(0x0102), vec![0, 2, 1, 0, 0]);
    assert_eq!(unknown_answer(), vec![1]);
}

#[test]
fn mailbox_memory_line() {
    assert_eq!(
        memory_line(0, 0x3b40_0000),
        b"Memory: 0x00000000 (0x3b400000 bytes)\n".to_vec()
    );
    assert_eq!(hex_padded_digits(0xabc, 2), b"abc".to_vec());
    assert_eq!(
        format!("Memory: {:#010x} ({:#x} bytes)\n", 0x12u64, 0xfu64).into_bytes(),
        memory_line(0x12, 0xf)
    );
}

#[test]
fn memory_builtins() {
    let mut d = vec![9u8; 6];
    memcpy(&mut d, &[1, 2, 3], 3);
    assert_eq!(d, vec![1, 2, 3, 9, 9, 9]);
    let mut up = vec![1u8, 2, 3, 4, 5, 6];
    memmove(&mut up, 2, 0, 4);
    assert_eq!(up, vec![1, 2, 1, 2, 3, 4]);
    let mut down = vec![1u8, 2, 3, 4, 5, 6];
    memmove(&mut down, 0, 2, 4);
    assert_eq!(down, vec![3, 4, 5, 6, 5, 6]);
    let mut s = vec![0u8; 4];
    memset(&mut s, 7, 3);
    assert_eq!(s, vec![7, 7, 7, 0]);
    assert_eq!(memcmp(b"abc", b"abd", 3), -1);
    assert_eq!(memcmp(b"abz", b"aba", 3), 25);
    assert_eq!(memcmp(b"abz", b"aba", 2), 0);
}

#[test]
fn display_frame_draws_the_bar_cut_at_the_edge() {
    let (w, h) = (40usize, 2usize);
    let mut back = vec![7u8; w * h * 4];
    r9::display::write_frame(&mut back, 20, w, h);
    for y in 0..h {
        for x in 0..w {
            let px = &back[(y * w + x) * 4..(y * w + x) * 4 + 4];
            if x >= 20 {
                assert_eq!(px, &[0, 255, 0, 255], "bar pixel ({x}, {y})");
            } else {
                assert_eq!(px, &[0, 0, 0, 0], "black pixel ({x}, {y})");
            }
        }
    }
    r9::display::write_frame(&mut back, 45, w, h);
    let lit: Vec<usize> = (0..w).filter(|x| back[x * 4 + 1] == 255).collect();
    assert_eq!(lit, (5..37).collect::<Vec<usize>>());
}

#[test]
fn child_state_reads_back_what_the_spawner_wrote() {
    let page = child_state(&[3, 0x0102_0304], 4096);
    assert_eq!(page.len(), 4096);
    assert_eq!(&page[..12], &[2, 0, 0, 0, 3, 0, 0, 0, 4, 3, 2, 1]);
    assert!(page[12..].iter().all(|b| *b == 0));
    assert_eq!(n_handles(&page), 2);
    assert_eq!(handles(&page), (3, 0x0102_0304));
    assert_eq!(handle_at(&page, 1), 0x0102_0304);
    let none = child_state(&[], 4096);
    assert_eq!(n_handles(&none), 0);
}
