use hachimi_cat::constant::{FRAME_SIZE, RB_SIZE};
use ringbuf::traits::{Consumer, Observer, Producer, Split};
use ringbuf::HeapRb;

#[test]
fn mic_ring_overflow_drops_one() {
    let (mut prod, cons) = HeapRb::<f32>::new(RB_SIZE).split();
    let data: Vec<f32> = (0..RB_SIZE + 1).map(|i| i as f32).collect();
    let written = prod.push_slice(&data);
    assert_eq!(data.len() - written, 1);
    assert_eq!(cons.occupied_len(), RB_SIZE);
}

#[test]
fn overflow_drop_keeps_fifo_prefix() {
    let (mut prod, mut cons) = HeapRb::<f32>::new(4 * FRAME_SIZE).split();
    let data: Vec<f32> = (0..5 * FRAME_SIZE).map(|i| i as f32).collect();
    let written = prod.push_slice(&data);
    assert_eq!(data.len() - written, FRAME_SIZE);
    let mut out = vec![0.0f32; 5 * FRAME_SIZE];
    let read = cons.pop_slice(&mut out);
    assert_eq!(read, 4 * FRAME_SIZE);
    assert_eq!(&out[..read], &data[..4 * FRAME_SIZE]);
}

#[test]
fn ring_fifo_order_across_interleaving() {
    let (mut prod, mut cons) = HeapRb::<f32>::new(8).split();
    let mut pushed = Vec::new();
    let mut popped = Vec::new();
    let mut next = 0.0f32;
    for round in 0..40usize {
        let n = (round * 7) % 5 + 1;
        let chunk: Vec<f32> = (0..n).map(|k| next + k as f32).collect();
        let w = prod.push_slice(&chunk);
        pushed.extend_from_slice(&chunk[..w]);
        next += w as f32;
        let mut buf = vec![0.0f32; (round * 3) % 4 + 1];
        let r = cons.pop_slice(&mut buf);
        popped.extend_from_slice(&buf[..r]);
        assert_eq!(&pushed[..popped.len()], &popped[..]);
    }
}
