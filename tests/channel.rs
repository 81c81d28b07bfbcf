use spectrum_viz::channel::{DoubleBuffer, ReadCursor, SharedPipe, BANDS};

#[test]
fn double_buffer_starts_silent() {
    let buffer = DoubleBuffer::new(4);
    assert_eq!(buffer.latest(), vec![0u32; 4]);
    assert_eq!(buffer.version(), 0);
}

#[test]
fn publish_replaces_latest_and_counts_versions() {
    let mut buffer = DoubleBuffer::new(4);
    buffer.publish(&vec![1, 2, 3, 4]);
    assert_eq!(buffer.latest(), vec![1, 2, 3, 4]);
    assert_eq!(buffer.version(), 1);
    buffer.publish(&vec![5, 6, 7, 8]);
    assert_eq!(buffer.read_with_tracking(), (vec![5, 6, 7, 8], 2));
}

#[test]
fn versions_never_decrease_between_reads() {
    let mut buffer = DoubleBuffer::new(2);
    let mut last = buffer.read_with_tracking().1;
    for k in 0..100u32 {
        if k % 3 == 0 {
            buffer.publish(&vec![k, k + 1]);
            assert_eq!(buffer.read_with_tracking().1, last + 1);
        }
        let seen = buffer.read_with_tracking().1;
        assert!(seen >= last);
        last = seen;
    }
    assert_eq!(last, 34);
}

#[test]
fn cursor_reads_each_version_once() {
    let mut buffer = DoubleBuffer::new(2);
    let mut cursor = ReadCursor::new();
    assert!(!buffer.has_new_data(&cursor));
    assert_eq!(buffer.read_if_new(&mut cursor), None);
    buffer.publish(&vec![9, 9]);
    assert!(buffer.has_new_data(&cursor));
    assert_eq!(buffer.read_if_new(&mut cursor), Some(vec![9, 9]));
    assert_eq!(cursor.last_seen(), 1);
    assert!(!buffer.has_new_data(&cursor));
    assert_eq!(buffer.read_if_new(&mut cursor), None);
}

#[test]
fn shared_pipe_round_trip() {
    let pipe = SharedPipe::new();
    assert_eq!(pipe.read(), vec![0u32; BANDS]);
    let data: Vec<u32> = (0..BANDS as u32).collect();
    pipe.write(&data);
    assert_eq!(pipe.read(), data);
    assert_eq!(pipe.read_with_tracking(), (data.clone(), 1));
    let mut cursor = ReadCursor::new();
    assert!(pipe.has_new_data(&cursor));
    assert_eq!(pipe.read_if_new(&mut cursor), Some(data));
    assert_eq!(pipe.read_if_new(&mut cursor), None);
}

#[test]
fn shared_pipe_clones_share_data() {
    let pipe = SharedPipe::new();
    let other = pipe.clone();
    pipe.write(&vec![7u32; BANDS]);
    assert_eq!(other.read(), vec![7u32; BANDS]);
}

#[test]
fn interleaved_reads_are_never_torn() {
    let pipe = SharedPipe::new();
    let published: Vec<Vec<u32>> = (1..=500u32).map(|k| (0..BANDS as u32).map(|b| k * 100 + b).collect()).collect();
    let readers: Vec<SharedPipe> = (0..4).map(|_| pipe.clone()).collect();
    let mut last_versions = vec![0u64; readers.len()];
    for (k, spectrum) in published.iter().enumerate() {
        pipe.write(spectrum);
        for (r, reader) in readers.iter().enumerate() {
            if (k + r) % 3 == 0 {
                let (data, version) = reader.read_with_tracking();
                assert!(published.contains(&data));
                assert_eq!(data, *spectrum);
                assert!(version >= last_versions[r]);
                last_versions[r] = version;
            }
        }
    }
    assert_eq!(pipe.read_with_tracking(), (published[499].clone(), 500));
}
