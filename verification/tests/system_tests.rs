use kalopsia_os::interrupts::keyboard::scancode_stream::ScancodeStream;
use kalopsia_os::interrupts::pic::{Mode, Pic, Pics};
use kalopsia_os::interrupts::utils::if_flag;
use kalopsia_os::interrupts::Interrupts;
use kalopsia_os::scheduler::executor::Executor;
use kalopsia_os::scheduler::task::keyboard::scancode_stream::ScancodeQueue;
use kalopsia_os::scheduler::task::keyboard::{key_char, read_key, Key, KeyboardDecoder};
use kalopsia_os::scheduler::task::time::{
    bcd_to_bin, datetime_text, read_rtc, rtc_updating, RtcRegisters,
};
use kalopsia_os::scheduler::task::shell::subtasks::interrupt_counter::drain_until_quit;
use kalopsia_os::scheduler::task::{Task, TaskId, TaskIdCounter};
use kalopsia_os::test_framework::{exit_qemu, QEMUExitCode};
use kalopsia_os::utils::{Port, PortWrite};

fn w(port: u16, value: u8) -> PortWrite {
    PortWrite { port: Port::new(port), value }
}

#[test]
fn interrupt_vectors() {
    assert_eq!(Interrupts::Timer.as_u8(), 32);
    assert_eq!(Interrupts::Keyboard.as_u8(), 33);
}

#[test]
fn pic_single_writes() {
    let p = Pic::new(0x20, 0x21);
    assert_eq!(p.end_of_interrupt(), w(0x20, 0x20));
    assert_eq!(p.writeb(Mode::Data, 7), w(0x21, 7));
    assert_eq!(p.writeb(Mode::Command, 7), w(0x20, 7));
    assert_eq!(p.readb(Mode::Data), Port::new(0x21));
    assert_eq!(p.readb(Mode::Command), Port::new(0x20));
    assert_eq!(p.disable(), w(0x21, 0xff));
    assert_eq!(p.unmask(), w(0x21, 0));
}

#[test]
fn pic_remap_sequence() {
    let pics = Pics::new();
    let expected = vec![
        w(0x20, 0x11), w(0x80, 0),
        w(0xA0, 0x11), w(0x80, 0),
        w(0x21, 0x20), w(0x80, 0),
        w(0xA1, 0x28), w(0x80, 0),
        w(0x21, 4), w(0x80, 0),
        w(0xA1, 2), w(0x80, 0),
        w(0x21, 1), w(0x80, 0),
        w(0xA1, 1), w(0x80, 0),
        w(0x21, 0), w(0xA1, 0),
    ];
    assert_eq!(pics.remap(), expected);
}

#[test]
fn pic_end_of_interrupt() {
    let pics = Pics::new();
    // the keyboard comes through the master only
    assert_eq!(pics.end_of_interrupt(Interrupts::Keyboard.as_u8()), vec![w(0x20, 0x20)]);
    // an interrupt of the slave is acknowledged to both, slave first
    assert_eq!(pics.end_of_interrupt(0x28), vec![w(0xA0, 0x20), w(0x20, 0x20)]);
    assert_eq!(pics.end_of_interrupt(0x27), vec![w(0x20, 0x20)]);
}

#[test]
fn interrupt_flag_bit() {
    assert_eq!(if_flag(0x202), 1);
    assert_eq!(if_flag(0x002), 0);
    assert_eq!(if_flag(u64::MAX), 1);
}

#[test]
fn scancode_stream_fifo() {
    let mut s = ScancodeStream::new(2);
    assert_eq!(s.pop(), None);
    s.push(0x1e);
    assert!(!s.is_full());
    s.push(0x9e);
    assert!(s.is_full());
    assert_eq!(s.pop(), Some(0x1e));
    assert_eq!(s.pop(), Some(0x9e));
    assert_eq!(s.pop(), None);
}

#[test]
fn scancode_queue_full_hands_back() {
    let mut q = ScancodeQueue::new(1);
    assert_eq!(q.push(5), Ok(()));
    assert_eq!(q.push(6), Err(6));
    assert_eq!(q.pop(), Some(5));
    assert_eq!(q.push(7), Ok(()));
    assert_eq!(q.pop(), Some(7));
    assert_eq!(q.pop(), None);
    assert_eq!(q.queue.capacity(), 1);
}

#[test]
fn keyboard_decodes_set_1() {
    let mut k = KeyboardDecoder::new();
    // `a` pressed, then released
    match k.decode(0x1e) {
        Some(Key::Unicode(c)) => assert_eq!(c, 'a'),
        _ => panic!("expected a"),
    }
    assert!(k.decode(0x9e).is_none());
    // shift held gives capitals; shift itself has no character
    assert!(matches!(k.decode(0x2a), Some(Key::Raw(pc_keyboard::KeyCode::LShift))));
    match k.decode(0x1e) {
        Some(Key::Unicode(c)) => assert_eq!(c, 'A'),
        _ => panic!("expected A"),
    }
}

#[test]
fn line_reading() {
    let mut line: Vec<char> = Vec::new();
    assert_eq!(read_key(&mut line, &Key::Unicode('h')), 'h');
    assert_eq!(read_key(&mut line, &Key::Unicode('i')), 'i');
    assert_eq!(read_key(&mut line, &Key::Raw(pc_keyboard::KeyCode::F1)), '\u{2764}');
    assert_eq!(read_key(&mut line, &Key::Unicode('\n')), '\n');
    assert_eq!(line, vec!['h', 'i', '\u{2764}']);
    assert_eq!(key_char(&Key::Unicode('z')), 'z');
}

#[test]
fn executor_round_robin() {
    let mut e: Executor<u32> = Executor::new();
    assert_eq!(e.next_task(), None);
    e.add(1);
    e.add(2);
    let t = e.next_task().unwrap();
    assert_eq!(t, 1);
    // not finished: back of the queue
    e.requeue(t, false);
    assert_eq!(e.next_task(), Some(2));
    e.requeue(2, true);
    assert_eq!(e.next_task(), Some(1));
    assert_eq!(e.next_task(), None);
    let mut d: Executor<u8> = Executor::default();
    assert_eq!(d.next_task(), None);
}

#[test]
fn task_ids_increase() {
    let mut ids = TaskIdCounter::new();
    let a = Task::new(&mut ids, "first");
    let b = Task::new(&mut ids, "second");
    assert_eq!(a.id, TaskId(0));
    assert_eq!(b.id, TaskId(1));
    assert_eq!(b.future, "second");
    assert_eq!(ids.fresh(), TaskId(2));
}

#[test]
fn bcd_values() {
    assert_eq!(bcd_to_bin(0x00), 0);
    assert_eq!(bcd_to_bin(0x09), 9);
    assert_eq!(bcd_to_bin(0x10), 10);
    assert_eq!(bcd_to_bin(0x59), 59);
    assert_eq!(bcd_to_bin(0x99), 99);
}

#[test]
fn rtc_reads() {
    assert_eq!(read_rtc(0x04), (w(0x70, 0x04), Port::new(0x71)));
    assert!(rtc_updating(0x80));
    assert!(rtc_updating(0xa6));
    assert!(!rtc_updating(0x26));
}

#[test]
fn clock_line() {
    let r = RtcRegisters { hours: 0x09, minutes: 0x05, seconds: 0x30, day: 0x31, month: 0x12, year: 0x24 };
    assert_eq!(String::from_utf8(datetime_text(r)).unwrap(), "Current time: 9:5:30 31/12/24");
}

#[test]
fn qemu_exit_codes() {
    assert_eq!(QEMUExitCode::Success.code(), 0x10);
    assert_eq!(QEMUExitCode::Failure.code(), 0x11);
    let write = exit_qemu(QEMUExitCode::Failure);
    assert_eq!(write.port, Port::new(0xf4));
    assert_eq!(write.value, 0x11);
}

#[test]
fn drain_stops_after_quit_key() {
    let mut queue = ScancodeQueue::new(10);
    let mut decoder = KeyboardDecoder::new();
    // `a` pressed, `q` pressed, `a` pressed again
    queue.push(0x1E).unwrap();
    queue.push(0x10).unwrap();
    queue.push(0x1E).unwrap();
    assert!(drain_until_quit(&mut queue, &mut decoder));
    // what came after the `q` is left for later
    assert_eq!(queue.pop(), Some(0x1E));
    assert_eq!(queue.pop(), None);
}

#[test]
fn drain_without_quit_key_empties_queue() {
    let mut queue = ScancodeQueue::new(10);
    let mut decoder = KeyboardDecoder::new();
    // `a` pressed and released
    queue.push(0x1E).unwrap();
    queue.push(0x9E).unwrap();
    assert!(!drain_until_quit(&mut queue, &mut decoder));
    assert_eq!(queue.pop(), None);
}

