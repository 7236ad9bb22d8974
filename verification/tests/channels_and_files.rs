use datagraph::graph::batch::BatchBuffer;
use datagraph::graph::node_id::NodeId;
use datagraph::graph::port::{PortKey, PortType};
use datagraph::latest_value::{LatestValueReader, LatestValueWriter};
use datagraph::node_data::{NodeDataReader, NodeDataWriter, BUFFER_SIZE, STRIDE};
use datagraph::text::{chars_of, decimal_chars, find_char, parse_usize_in, trimmed};
use datagraph::wav::wav_bytes;

fn port(i: usize) -> PortKey {
    PortKey::new(NodeId::parse("abcdefgh").unwrap(), i, PortType::Output)
}

#[test]
fn subscribing_a_slot_replaces_its_port() {
    let mut w = LatestValueWriter::new(7u8);
    w.subscribe(port(0), 3);
    w.subscribe(port(1), 4);
    w.subscribe(port(2), 3);
    assert_eq!(w.subscriptions(), &[(port(1), 4), (port(2), 3)]);
    w.unsubscribe(4);
    assert_eq!(w.subscriptions(), &[(port(2), 3)]);
    assert_eq!(*w.buffer(), 7);
}

#[test]
fn slot_writes_skip_missing_values_and_slots_past_the_end() {
    let mut w = LatestValueWriter::new(());
    w.subscribe(port(0), 1);
    w.subscribe(port(1), 5000);
    w.subscribe(port(2), 2);
    w.subscribe(port(3), 0);
    let writes = w.slot_writes_for(&[Some(0.5f32), Some(1.0), None, Some(2.0)]);
    assert_eq!(writes, vec![(1, 0.5), (0, 2.0)]);
}

#[test]
fn readers_hand_out_their_buffer() {
    let r = LatestValueReader::new("shared");
    assert_eq!(*r.buffer(), "shared");
    let n = NodeDataReader::new(3u32);
    assert_eq!(*n.buffer(), 3);
    assert_eq!(n.buffer_stride(), STRIDE);
    assert_eq!(n.buffer_stride(), BUFFER_SIZE + 1);
}

#[test]
fn node_data_publishes_whole_frames() {
    let mut w: NodeDataWriter<(), u16> = NodeDataWriter::new((), 0);
    assert_eq!(w.version(), 0);
    w.subscribe(port(0), 2);
    assert_eq!(w.version(), 1);
    let half: Vec<u16> = vec![1; BUFFER_SIZE / 2];
    assert!(w.write_batches(&[half.clone()]).is_empty());
    let published = w.write_batches(&[half.clone()]);
    assert_eq!(published.len(), 1);
    assert_eq!(published[0].0, 2);
    assert_eq!(published[0].1, vec![1; BUFFER_SIZE]);
    // A batch longer than the frame left keeps only what fits.
    let long: Vec<u16> = (0..(BUFFER_SIZE as u16 + 10)).collect();
    let published = w.write_batches(&[long]);
    assert_eq!(published.len(), 1);
    assert_eq!(published[0].1.len(), BUFFER_SIZE);
    assert_eq!(published[0].1[5], 5);
    w.unsubscribe(2);
    assert_eq!(w.version(), 2);
    assert!(w.subscriptions().is_empty());
    assert!(w.write_batches(&[half]).is_empty());
}

#[test]
fn text_helpers() {
    let v = chars_of(" 12 :x ");
    assert_eq!(trimmed(&v, 0, v.len()), vec!['1', '2', ' ', ':', 'x']);
    assert_eq!(find_char(&v, 0, v.len(), ':'), Some(4));
    assert_eq!(find_char(&v, 0, 4, ':'), None);
    assert_eq!(parse_usize_in(&v, 1, 3), Some(12));
    assert_eq!(parse_usize_in(&v, 0, 3), None);
    assert_eq!(parse_usize_in(&chars_of("+7"), 0, 2), Some(7));
    assert_eq!(parse_usize_in(&chars_of(""), 0, 0), None);
    assert_eq!(parse_usize_in(&chars_of("18446744073709551616"), 0, 20), None);
    assert_eq!(decimal_chars(0), vec!['0']);
    assert_eq!(decimal_chars(4096), vec!['4', '0', '9', '6']);
}

#[test]
fn wav_file_layout() {
    let bytes = wav_bytes(&[1, -1, 256], 8000);
    assert_eq!(bytes.len(), 44 + 6);
    assert_eq!(&bytes[0..4], b"RIFF");
    assert_eq!(&bytes[4..8], &(36u32 + 6).to_le_bytes());
    assert_eq!(&bytes[8..16], b"WAVEfmt ");
    assert_eq!(&bytes[16..20], &16u32.to_le_bytes());
    assert_eq!(&bytes[20..22], &1u16.to_le_bytes());
    assert_eq!(&bytes[22..24], &1u16.to_le_bytes());
    assert_eq!(&bytes[24..28], &8000u32.to_le_bytes());
    assert_eq!(&bytes[28..32], &16000u32.to_le_bytes());
    assert_eq!(&bytes[32..34], &2u16.to_le_bytes());
    assert_eq!(&bytes[34..36], &16u16.to_le_bytes());
    assert_eq!(&bytes[36..40], b"data");
    assert_eq!(&bytes[40..44], &6u32.to_le_bytes());
    assert_eq!(&bytes[44..], &[1, 0, 255, 255, 0, 1]);
}

#[test]
fn empty_wav_is_just_the_header() {
    let bytes = wav_bytes(&[], 44100);
    assert_eq!(bytes.len(), 44);
    assert_eq!(&bytes[40..44], &[0, 0, 0, 0]);
}

#[test]
fn batch_buffer_stores_port_after_port() {
    let mut b: BatchBuffer<u8> = BatchBuffer::new();
    b.resize(2, 3, 0);
    assert_eq!(b.batchsize(), 3);
    b.set_value(0, 2, 7);
    b.set_value(1, 0, 9);
    assert_eq!(b.batches(), vec![vec![0, 0, 7], vec![9, 0, 0]]);
    // Shrinking keeps the first values; growing fills the new places.
    b.resize(1, 2, 5);
    assert_eq!(b.batches(), vec![vec![0, 0]]);
    b.resize(2, 2, 5);
    assert_eq!(b.batches(), vec![vec![0, 0], vec![5, 5]]);
    b.resize(1, 3, 1);
    b.resize(1, 2, 1);
    b.resize(5, 1, 4);
    assert_eq!(b.batches(), vec![vec![0], vec![0], vec![4], vec![4], vec![4]]);
}

#[test]
fn node_data_publishes_the_latest_whole_run() {
    let mut w: NodeDataWriter<(), u32> = NodeDataWriter::new((), 0);
    w.subscribe(port(0), 5);
    let len = 512;
    let mut published = 0;
    let mut last: Vec<u32> = Vec::new();
    for m in 0..10u32 {
        let batch: Vec<u32> = (0..len as u32).map(|i| m * 1000 + i).collect();
        for (slot, frame) in w.write_batches(&[batch]) {
            assert_eq!(slot, 5);
            published += 1;
            last = frame;
        }
    }
    // 10 batches of 512 samples: two whole frames, the second from batches 4 to 7.
    assert_eq!(published, 10 * len / BUFFER_SIZE);
    assert_eq!(last.len(), BUFFER_SIZE);
    assert_eq!(last[0], 4000);
    assert_eq!(last[BUFFER_SIZE - 1], 7000 + 511);
}
