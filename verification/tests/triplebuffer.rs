use std::sync::atomic::{AtomicBool, Ordering};
use std::sync::Arc;
use std::task::{Wake, Waker};

use cynosure::poll::Poll;
use cynosure::site_d::buffer::{aligned_start, is_power_of_two};
use cynosure::site_d::triplebuffer::{
    triple_buffer, triple_buffer_aligned, AlignedBuffer, ReaderNext, TripleBufReader,
    TripleBufWriter, TripleBuffer, WriterPublish, Zeroable,
};

const CAP: usize = 8192;
const ALIGN: usize = 4096;

fn u8_triple() -> (
    TripleBuffer<u8>,
    TripleBufWriter,
    TripleBufReader,
    AlignedBuffer<u8>,
) {
    triple_buffer_aligned::<u8>(CAP, ALIGN)
}

struct FlagWaker(Arc<AtomicBool>);

impl Wake for FlagWaker {
    fn wake(self: Arc<Self>) {
        self.0.store(true, Ordering::SeqCst);
    }
}

fn flag_waker() -> (Waker, Arc<AtomicBool>) {
    let flag = Arc::new(AtomicBool::new(false));
    (Arc::new(FlagWaker(flag.clone())).into(), flag)
}

fn wake(waker: Option<Waker>) {
    if let Some(waker) = waker {
        waker.wake();
    }
}

fn publish_now<T: Zeroable + Copy>(
    tb: &mut TripleBuffer<T>,
    mut fut: WriterPublish<T>,
) -> AlignedBuffer<T> {
    let (waker, _) = flag_waker();
    let (poll, to_wake) = fut.poll(tb, &waker);
    wake(to_wake);
    match poll {
        Poll::Ready(buf) => buf,
        Poll::Pending => panic!("Future unexpectedly Pending"),
    }
}

fn next_now<T: Zeroable + Copy>(
    tb: &mut TripleBuffer<T>,
    mut fut: ReaderNext<T>,
) -> AlignedBuffer<T> {
    let (waker, _) = flag_waker();
    let (poll, to_wake) = fut.poll(tb, &waker);
    wake(to_wake);
    match poll {
        Poll::Ready(buf) => buf,
        Poll::Pending => panic!("Future unexpectedly Pending"),
    }
}

fn write_seq(buf: &mut AlignedBuffer<u8>, v: u64) {
    let bytes = v.to_le_bytes();
    buf.capacity_mut()[..8].copy_from_slice(&bytes);
    buf.set_len(8);
}

fn read_seq(buf: &AlignedBuffer<u8>) -> u64 {
    let mut bytes = [0u8; 8];
    bytes.copy_from_slice(&buf.deref()[..8]);
    u64::from_le_bytes(bytes)
}

#[test]
fn aligned_buffer_alignment_and_len() {
    let mut b = AlignedBuffer::<u8>::with_alignment(CAP, ALIGN);
    assert_eq!(b.capacity(), CAP);
    assert_eq!(b.len(), 0);
    assert_eq!(
        b.capacity_mut().as_mut_ptr() as usize % ALIGN,
        0,
        "buffer not aligned"
    );

    b.capacity_mut()[0] = 0xAA;
    b.capacity_mut()[CAP - 1] = 0xBB;
    assert_eq!(b.capacity_mut()[0], 0xAA);
    assert_eq!(b.capacity_mut()[CAP - 1], 0xBB);
}

#[test]
fn default_alignment_is_align_of_t() {
    let b = AlignedBuffer::<u32>::new(16);
    assert_eq!(b.alignment(), std::mem::align_of::<u32>());
    assert_eq!(
        b.deref().as_ptr() as usize % std::mem::align_of::<u32>(),
        0
    );
}

#[test]
fn zero_initialized() {
    let mut b = AlignedBuffer::<u32>::new(32);
    assert_eq!(b.capacity_mut().len(), 32);
    assert!(b.capacity_mut().iter().all(|&x| x == 0));
}

#[test]
fn triple_buffer_initial_state() {
    let (tb, writer, _reader, mut writer_buf) = u8_triple();
    assert_eq!(writer_buf.capacity(), CAP);
    assert_eq!(writer_buf.capacity_mut().as_mut_ptr() as usize % ALIGN, 0);

    let st = writer.stats(&tb);
    assert_eq!(st.writer_idx, 0);
    assert_eq!(st.reader_idx, 1);
    assert_eq!(st.middle_idx, 2);
    assert_eq!(st.generation, 0);
}

#[test]
fn async_publish_and_read_basic() {
    let (mut tb, mut writer, mut reader, mut wbuf) = u8_triple();

    write_seq(&mut wbuf, 7);
    let fut = writer.publish(&tb, wbuf);
    let next_buf = publish_now(&mut tb, fut);

    let fut = reader.next(&tb, None);
    let rbuf = next_now(&mut tb, fut);
    assert_eq!(read_seq(&rbuf), 7);

    let mut wbuf2 = next_buf;
    write_seq(&mut wbuf2, 9);
    let fut = writer.publish(&tb, wbuf2);
    let next2 = publish_now(&mut tb, fut);

    let fut = reader.next(&tb, Some(rbuf));
    let rbuf2 = next_now(&mut tb, fut);
    assert_eq!(read_seq(&rbuf2), 9);

    assert_eq!(next2.capacity(), CAP);
}

#[test]
fn backpressure_pending_and_wakeup() {
    let (mut tb, mut writer, mut reader, mut wbuf) = u8_triple();

    write_seq(&mut wbuf, 1);
    let fut = writer.publish(&tb, wbuf);
    let mut next = publish_now(&mut tb, fut);

    write_seq(&mut next, 2);
    let mut publish_fut = writer.publish(&tb, next);
    let (waker, writer_wake_flag) = flag_waker();
    assert!(publish_fut.poll(&mut tb, &waker).0.is_pending());

    let fut = reader.next(&tb, None);
    let _rbuf = next_now(&mut tb, fut);
    assert!(writer_wake_flag.load(Ordering::SeqCst), "writer should wake");

    let buf_back = match publish_fut.poll(&mut tb, &waker).0 {
        Poll::Ready(b) => b,
        Poll::Pending => panic!("publish should be ready after wake"),
    };
    assert_eq!(buf_back.capacity(), CAP);
}

#[test]
fn reader_pending_then_wakeup() {
    let (mut tb, mut writer, mut reader, mut wbuf) = u8_triple();

    let mut read_fut = reader.next(&tb, None);
    let (waker, reader_wake_flag) = flag_waker();
    assert!(read_fut.poll(&mut tb, &waker).0.is_pending());

    write_seq(&mut wbuf, 123);
    let fut = writer.publish(&tb, wbuf);
    let _writer_next_buf = publish_now(&mut tb, fut);
    assert!(reader_wake_flag.load(Ordering::SeqCst), "reader should wake");

    let rbuf = match read_fut.poll(&mut tb, &waker).0 {
        Poll::Ready(b) => b,
        Poll::Pending => panic!("read should be ready after publish"),
    };
    assert_eq!(read_seq(&rbuf), 123);
}

#[test]
fn drop_with_in_flight_buffers_no_panic() {
    let buf_back = {
        let (mut tb, mut writer, _reader, mut wbuf) = u8_triple();
        write_seq(&mut wbuf, 42);
        let fut = writer.publish(&tb, wbuf);
        publish_now(&mut tb, fut)
        // writer and reader go here; the middle still holds unread data
    };
    assert_eq!(buf_back.capacity(), CAP);
    assert_eq!(buf_back.deref().as_ptr() as usize % ALIGN, 0);
    drop(buf_back);
}

/// A number that a device writes.
#[derive(Clone, Copy, Debug, PartialEq)]
struct Sample(f32);

impl Zeroable for Sample {
    fn zero_value() -> Sample {
        Sample(0.0)
    }

    fn zero() -> Sample {
        Sample(0.0)
    }
}

#[test]
fn typed_f32_roundtrip() {
    let (mut tb, mut writer, mut reader, mut wbuf) = triple_buffer::<Sample>(1024);
    let data = [Sample(1.5), Sample(2.5), Sample(3.5), Sample(4.5)];
    wbuf.capacity_mut()[..4].copy_from_slice(&data);
    wbuf.set_len(4);
    let fut = writer.publish(&tb, wbuf);
    let _next = publish_now(&mut tb, fut);

    let fut = reader.next(&tb, None);
    let rbuf = next_now(&mut tb, fut);
    assert_eq!(rbuf.deref(), &data);
}

#[derive(Clone, Copy, Debug, PartialEq)]
struct Pixel {
    r: u8,
    g: u8,
    b: u8,
    a: u8,
}

impl Zeroable for Pixel {
    fn zero_value() -> Pixel {
        Pixel {
            r: 0,
            g: 0,
            b: 0,
            a: 0,
        }
    }

    fn zero() -> Pixel {
        Pixel {
            r: 0,
            g: 0,
            b: 0,
            a: 0,
        }
    }
}

#[test]
fn typed_pod_struct() {
    let (mut tb, mut writer, mut reader, mut wbuf) = triple_buffer::<Pixel>(256);
    let px = Pixel {
        r: 1,
        g: 2,
        b: 3,
        a: 4,
    };
    wbuf.capacity_mut()[0] = px;
    wbuf.set_len(1);
    let fut = writer.publish(&tb, wbuf);
    let _next = publish_now(&mut tb, fut);

    let fut = reader.next(&tb, None);
    let rbuf = next_now(&mut tb, fut);
    assert_eq!(rbuf.deref()[0], px);
}

#[test]
fn typed_custom_alignment() {
    // A buffer of numbers on a cache line of 64 bytes.
    let (mut tb, mut writer, mut reader, mut wbuf) = triple_buffer_aligned::<u64>(128, 64);
    assert_eq!(wbuf.capacity_mut().as_mut_ptr() as usize % 64, 0);
    wbuf.capacity_mut()[0] = 0xDEAD_BEEF;
    wbuf.set_len(1);
    let fut = writer.publish(&tb, wbuf);
    let _next = publish_now(&mut tb, fut);
    let fut = reader.next(&tb, None);
    let rbuf = next_now(&mut tb, fut);
    assert_eq!(rbuf.deref()[0], 0xDEAD_BEEF);
}

#[test]
fn triple_buffer_many_rounds_in_order() {
    let (mut tb, mut writer, mut reader, mut wbuf) = u8_triple();
    let mut prev: Option<AlignedBuffer<u8>> = None;
    for i in 0..1000u64 {
        write_seq(&mut wbuf, i);
        let fut = writer.publish(&tb, wbuf);
        wbuf = publish_now(&mut tb, fut);
        let fut = reader.next(&tb, prev.take());
        let rbuf = next_now(&mut tb, fut);
        assert_eq!(read_seq(&rbuf), i);
        prev = Some(rbuf);
    }
    assert_eq!(reader.stats(&tb).generation, writer.stats(&tb).generation);
}

#[test]
fn triple_buffer_state_after_one_publish() {
    let (mut tb, mut writer, _reader, wbuf) = u8_triple();
    assert!(tb.middle_free());
    assert!(!tb.has_unread());
    let fut = writer.publish(&tb, wbuf);
    let _next = publish_now(&mut tb, fut);
    assert!(tb.has_unread());
    assert!(!tb.middle_free());
    let st = tb.stats();
    assert_eq!(st.generation, 1);
    assert_eq!(
        st.writer_idx + st.reader_idx + st.middle_idx,
        3,
        "the three roles stay apart"
    );
}

#[test]
fn triple_buffer_knows_its_own_buffers() {
    let (tb, _w, _r, wbuf) = u8_triple();
    assert!(tb.is_matching(&wbuf));
    let foreign = AlignedBuffer::<u8>::new(CAP); // another alignment
    assert!(!tb.is_matching(&foreign));
    let shorter = AlignedBuffer::<u8>::with_alignment(CAP / 2, ALIGN);
    assert!(!tb.is_matching(&shorter));
    assert!(tb.is_acceptable(&None));
    assert!(!tb.is_acceptable(&Some(foreign)));
}

#[test]
fn aligned_buffer_layouts() {
    assert!(AlignedBuffer::<u8>::layout_for(64, 4096));
    assert!(!AlignedBuffer::<u8>::layout_for(64, 3));
    assert!(!AlignedBuffer::<u8>::layout_for(0, 1));
    assert!(!AlignedBuffer::<[u8; 0]>::layout_for(8, 1));
    assert!(!AlignedBuffer::<u64>::layout_for(usize::MAX, 8));
    assert!(is_power_of_two(1));
    assert!(is_power_of_two(4096));
    assert!(!is_power_of_two(0));
    assert!(!is_power_of_two(12));
}

#[test]
fn aligned_buffer_lies_at_its_address() {
    for align in [1, 2, 64, 4096] {
        let mut b = AlignedBuffer::<u8>::with_alignment(10, align);
        assert_eq!(b.first_address() % align, 0);
        assert_eq!(b.first_address(), b.capacity_mut().as_ptr() as usize);
        b.set_len(10);
        b.deref_mut()[0] = 1;
        assert_eq!(b.first_address(), b.deref().as_ptr() as usize);
        let moved = Box::new(b);
        assert_eq!(moved.first_address(), moved.deref().as_ptr() as usize);
    }
    for align in [4, 64, 4096] {
        let b = AlignedBuffer::<u32>::with_alignment(3, align);
        assert_eq!(b.first_address() % align, 0);
        assert_eq!(b.alignment(), align);
    }
    // The size is an odd multiple of the alignment.
    let odd = AlignedBuffer::<[u16; 3]>::with_alignment(5, 256);
    assert_eq!(odd.first_address() % 256, 0);
    // The size is an even multiple: the items lie where std puts them.
    let even = AlignedBuffer::<[u64; 4]>::with_alignment(5, 64);
    assert_eq!(even.first_address() % 8, 0);
    assert_eq!(even.first_address(), even.deref().as_ptr() as usize);
}

#[test]
fn aligned_start_is_the_least() {
    assert_eq!(aligned_start(64, 1, 64, 0), Some(0));
    assert_eq!(aligned_start(60, 1, 64, 63), Some(4));
    assert_eq!(aligned_start(60, 1, 64, 3), None);
    assert_eq!(aligned_start(40, 8, 64, 7), Some(3));
    assert_eq!(aligned_start(4, 12, 16, 3), Some(1));
    assert_eq!(aligned_start(8, 12, 16, 3), Some(2));
    // From 8 on, steps of 32 never reach a multiple of 64.
    assert_eq!(aligned_start(8, 32, 64, 1000), None);
    assert_eq!(aligned_start(usize::MAX, 1, 2, 1), Some(1));
}

#[test]
fn aligned_buffer_length_bounds_the_slice() {
    let mut b = AlignedBuffer::<u16>::new(4);
    b.capacity_mut().copy_from_slice(&[1, 2, 3, 4]);
    assert!(b.is_empty());
    b.set_len(3);
    assert_eq!(b.deref(), &[1, 2, 3]);
    b.deref_mut()[0] = 9;
    assert_eq!(b.deref(), &[9, 2, 3]);
    assert_eq!(b.capacity_mut(), &[9, 2, 3, 4]);
    assert_eq!(<[u8; 3]>::zero(), [0, 0, 0]);
    assert!(!bool::zero());
    assert_eq!(char::zero(), '\0');
    assert_eq!(i64::zero(), 0);
}

#[test]
fn triple_buffer_without_waiting() {
    let (mut tb, mut writer, mut reader, mut wbuf) = u8_triple();
    assert!(matches!(reader.try_next(&mut tb, None).0, Err(None)));
    write_seq(&mut wbuf, 1);
    let mut wbuf = match writer.try_publish(&mut tb, wbuf).0 {
        Ok(next) => next,
        Err(_) => panic!("middle free"),
    };
    assert!(wbuf.is_empty());
    write_seq(&mut wbuf, 2);
    // What is unread is not overwritten.
    let back = match writer.try_publish(&mut tb, wbuf).0 {
        Ok(_) => panic!("middle taken"),
        Err(back) => back,
    };
    assert_eq!(read_seq(&back), 2);
    let first = match reader.try_next(&mut tb, None).0 {
        Ok(buf) => buf,
        Err(_) => panic!("unread available"),
    };
    assert_eq!(read_seq(&first), 1);
    assert!(writer.try_publish(&mut tb, back).0.is_ok());
    let second = match reader.try_next(&mut tb, Some(first)).0 {
        Ok(buf) => buf,
        Err(_) => panic!("unread available"),
    };
    assert_eq!(read_seq(&second), 2);
}
