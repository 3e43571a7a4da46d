use suricata_sql_output::filedata::file::{choose_stored, to_hex, Context, Filedata};
use suricata_sql_output::filedata::zlib::{compress, Status};
use zlib_rs::{decompress_slice, InflateConfig};

const CLOSE: u8 = 2;

fn inflated(data: &[u8], size: usize) -> Vec<u8> {
    let mut out = vec![0u8; size];
    let (whole, code) = decompress_slice(&mut out, data, InflateConfig::default());
    assert_eq!(code, zlib_rs::ReturnCode::Ok);
    whole.to_vec()
}

#[test]
fn hexadecimal_digits() {
    assert_eq!(to_hex(&[]), "");
    assert_eq!(to_hex(&[0x00, 0x0f, 0xf0, 0xff, 0x12, 0xab]), "000ff0ff12ab");
}

#[test]
fn names_differ() {
    let names: Vec<String> = (0..=255u8).map(|b| to_hex(&[b])).collect();
    for i in 0..names.len() {
        for j in 0..i {
            assert_ne!(names[i], names[j]);
        }
    }
}

#[test]
fn small_file_is_stored_as_it_is() {
    let file = Filedata::new(&[0xab; 32], vec![7; 255]);
    assert_eq!(file.name, "ab".repeat(32));
    assert_eq!(file.original_size, 255);
    assert_eq!(file.data, vec![7; 255]);
}

#[test]
fn large_file_is_compressed() {
    let blob: Vec<u8> = (0..1024usize).map(|i| (i % 7) as u8).collect();
    let file = Filedata::new(&[1], blob.clone());
    assert_eq!(file.original_size, 1024);
    assert_ne!(file.data, blob);
    assert_eq!(file.data.len(), 1161);
    assert_eq!(inflated(&file.data, 1024), blob);
}

#[test]
fn compression_starts_at_the_threshold() {
    let file = Filedata::new(&[1], vec![9; 256]);
    assert_eq!(file.original_size, 256);
    assert_eq!(file.data.len(), 256 + 32 + 9);
    assert_eq!(inflated(&file.data, 256), vec![9; 256]);
}

#[test]
fn space_for_compression() {
    for (len, bound) in [(0usize, 11usize), (1, 12), (8, 19), (9, 20), (4096, 4617), (65536, 73737)] {
        let (buffer, status) = compress(&vec![0u8; len]);
        assert_eq!(status, Status::Success);
        assert_eq!(buffer.len(), bound);
    }
}

#[test]
fn compression_gives_the_same_each_time() {
    let blob: Vec<u8> = (0..5000usize).map(|i| (i * i % 251) as u8).collect();
    assert_eq!(compress(&blob), compress(&blob));
}

#[test]
fn failed_compression_stores_the_file_as_it_is() {
    let failures = [
        Status::StreamEnd,
        Status::NeedDict,
        Status::ErrNo,
        Status::StreamError,
        Status::DataError,
        Status::MemError,
        Status::BufError,
        Status::VersionError,
    ];
    for status in failures {
        assert_eq!(choose_stored(vec![1, 2, 3], (vec![4], status)), vec![1, 2, 3]);
    }
    assert_eq!(choose_stored(vec![1, 2, 3], (vec![4], Status::Success)), vec![4]);
}

#[test]
fn file_in_one_part() {
    let mut context = Context::new();
    let file = context.filedata_log(1, &[0xcd], b"all", CLOSE, CLOSE).unwrap();
    assert_eq!(file.name, "cd");
    assert_eq!(file.original_size, 3);
    assert_eq!(file.data, b"all");
    assert!(context.filedata_blob.is_empty());
}

#[test]
fn parts_are_joined() {
    let mut context = Context::new();
    assert!(context.filedata_log(1, &[], b"one ", 1, CLOSE).is_none());
    assert!(context.filedata_log(2, &[], b"other ", 1, CLOSE).is_none());
    assert!(context.filedata_log(1, &[], b"", 0, CLOSE).is_none());
    assert!(context.filedata_log(1, &[], b"two ", 0, CLOSE).is_none());
    let file = context.filedata_log(1, &[1], b"three", CLOSE, CLOSE).unwrap();
    assert_eq!(file.data, b"one two three");
    assert_eq!(file.original_size, 13);
    assert_eq!(context.filedata_blob.len(), 1);
    let file = context.filedata_log(2, &[2], b"", CLOSE | 1, CLOSE).unwrap();
    assert_eq!(file.data, b"other ");
}

#[test]
fn number_can_be_used_again() {
    let mut context = Context::new();
    context.filedata_log(5, &[], b"old", 0, CLOSE);
    context.filedata_log(5, &[], b"", CLOSE, CLOSE);
    let file = context.filedata_log(5, &[], b"new", CLOSE, CLOSE).unwrap();
    assert_eq!(file.data, b"new");
}

#[test]
fn empty_file() {
    let mut context = Context::new();
    let file = context.filedata_log(5, &[0], b"", CLOSE, CLOSE).unwrap();
    assert_eq!(file.original_size, 0);
    assert_eq!(file.data, b"");
}

#[test]
fn large_file_in_parts() {
    let mut context = Context::new();
    for _ in 0..9 {
        assert!(context.filedata_log(3, &[], &[5u8; 100], 0, CLOSE).is_none());
    }
    let file = context.filedata_log(3, &[], &[5u8; 100], CLOSE, CLOSE).unwrap();
    assert_eq!(file.original_size, 1000);
    assert_eq!(inflated(&file.data, 1000), vec![5u8; 1000]);
}

#[test]
fn other_files_are_completed_between_parts() {
    let mut context = Context::new();
    context.filedata_log(1, &[], b"one ", 0, CLOSE);
    context.filedata_log(2, &[], b"other", 0, CLOSE);
    assert_eq!(context.filedata_log(2, &[], b"", CLOSE, CLOSE).unwrap().data, b"other");
    context.filedata_log(1, &[], b"two ", 0, CLOSE);
    assert_eq!(context.filedata_log(3, &[], b"whole", CLOSE, CLOSE).unwrap().data, b"whole");
    assert_eq!(context.filedata_log(1, &[], b"three", CLOSE, CLOSE).unwrap().data, b"one two three");
    assert!(context.filedata_blob.is_empty());
}

#[test]
fn large_file_is_stored_as_it_was_compressed() {
    let blob: Vec<u8> = (0..3000usize).map(|i| (i * 31 % 253) as u8).collect();
    let (buffer, status) = compress(&blob);
    assert_eq!(status, Status::Success);
    assert_eq!(Filedata::new(&[2], blob).data, buffer);
}
