use wc_rs::chunks::make_partitions;
use wc_rs::scan::{count, count_range, partitioned_count, sequential_count};

#[test]
fn empty_input_counts_zero_for_any_partition_count() {
    let data: Vec<u8> = Vec::new();
    assert_eq!(sequential_count(&data), 0);
    assert_eq!(partitioned_count(&data, 1), 0);
    assert_eq!(partitioned_count(&data, 4), 0);
    assert_eq!(count(&data), 0);
}

#[test]
fn three_delimiters_counted_in_both_modes() {
    let data = b"a\nb\nc\n".to_vec();
    assert_eq!(sequential_count(&data), 3);
    assert_eq!(partitioned_count(&data, 1), 3);
    assert_eq!(partitioned_count(&data, 4), 3);
}

#[test]
fn input_without_delimiter_counts_zero() {
    let data = b"abc".to_vec();
    assert_eq!(sequential_count(&data), 0);
    assert_eq!(partitioned_count(&data, 1), 0);
    assert_eq!(partitioned_count(&data, 2), 0);
}

#[test]
fn more_partitions_than_bytes() {
    let data = b"a\nb\nc".to_vec();
    assert_eq!(data.len(), 5);
    assert_eq!(partitioned_count(&data, 8), 2);
    assert_eq!(partitioned_count(&data, 8), sequential_count(&data));
}

#[test]
fn partition_descriptors_for_tiny_input() {
    let parts = make_partitions(5, 8);
    assert_eq!(parts.len(), 8);
    for i in 0..7 {
        assert_eq!(parts[i].start, 0);
        assert_eq!(parts[i].length, 0);
    }
    assert_eq!(parts[7].start, 0);
    assert_eq!(parts[7].length, 5);
}

#[test]
fn million_newlines_same_result_for_one_and_sixteen_partitions() {
    let data = vec![b'\n'; 1_000_000];
    let one = partitioned_count(&data, 1);
    let sixteen = partitioned_count(&data, 16);
    assert_eq!(one, 1_000_000);
    assert_eq!(sixteen, 1_000_000);
}

#[test]
fn counting_twice_gives_the_same_result() {
    let data = b"first\nsecond\nthird".to_vec();
    assert_eq!(count(&data), count(&data));
    assert_eq!(sequential_count(&data), sequential_count(&data));
    assert_eq!(partitioned_count(&data, 3), partitioned_count(&data, 3));
}

#[test]
fn partition_lengths_cover_the_size_exactly() {
    let parts = make_partitions(10, 3);
    assert_eq!(parts.len(), 3);
    assert_eq!(parts[0].start, 0);
    assert_eq!(parts[0].length, 3);
    assert_eq!(parts[1].start, 3);
    assert_eq!(parts[1].length, 3);
    assert_eq!(parts[2].start, 6);
    assert_eq!(parts[2].length, 4);
    let total: usize = parts.iter().map(|p| p.length).sum();
    assert_eq!(total, 10);
}

#[test]
fn partitions_are_ordered_and_disjoint() {
    let parts = make_partitions(100, 7);
    for i in 0..parts.len() {
        for j in (i + 1)..parts.len() {
            assert!(parts[i].start + parts[i].length <= parts[j].start);
        }
    }
    let total: usize = parts.iter().map(|p| p.length).sum();
    assert_eq!(total, 100);
}

#[test]
fn partitions_of_empty_input() {
    let parts = make_partitions(0, 4);
    assert_eq!(parts.len(), 4);
    for p in &parts {
        assert_eq!(p.start, 0);
        assert_eq!(p.length, 0);
    }
}

#[test]
fn modes_agree_for_every_small_partition_count() {
    let data = b"line one\nline two\nline three\nno trailing newline".to_vec();
    let expected = sequential_count(&data);
    assert_eq!(expected, 3);
    for n in 1..=9 {
        assert_eq!(partitioned_count(&data, n), expected);
    }
    assert_eq!(count(&data), expected);
}

#[test]
fn count_range_scans_only_its_window() {
    let data = vec![0x0a, b'a', 0x0a, 0x0a, b'b'];
    assert_eq!(count_range(&data, 0, 5), 3);
    assert_eq!(count_range(&data, 1, 3), 2);
    assert_eq!(count_range(&data, 4, 1), 0);
    assert_eq!(count_range(&data, 0, 0), 0);
}

#[test]
fn only_the_delimiter_byte_is_counted() {
    let data = vec![0x0d, 0x0a, 0x09, 0x0b, 0x0c, 0x0a, 0x00];
    assert_eq!(sequential_count(&data), 2);
    assert_eq!(partitioned_count(&data, 3), 2);
}
