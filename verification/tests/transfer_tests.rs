use grpc_files::catalog::list_entries;
use grpc_files::client::prepare_upload;
use grpc_files::entries::RawEntry;
use grpc_files::errors::FsError;
use grpc_files::paths::Sandbox;
use grpc_files::transfer::split_into_chunks;
use grpc_files::upload::{begin_upload, temp_name_of};

fn sandbox() -> Sandbox {
    Sandbox::new(b"/srv/storage".to_vec()).unwrap()
}

#[test]
fn chunks_concatenate_to_data() {
    let data: Vec<u8> = (0u8..=99).collect();
    for size in [1usize, 3, 7, 50, 100, 1000] {
        let chunks = split_into_chunks(&data, size);
        let mut joined: Vec<u8> = Vec::new();
        for c in &chunks {
            assert!(!c.is_empty());
            assert!(c.len() <= size);
            joined.extend_from_slice(c);
        }
        assert_eq!(joined, data);
    }
}

#[test]
fn chunk_sizes_are_full_then_short() {
    let data = [0u8; 10];
    let chunks = split_into_chunks(&data, 4);
    let lens: Vec<usize> = chunks.iter().map(|c| c.len()).collect();
    assert_eq!(lens, vec![4, 4, 2]);
}

#[test]
fn empty_data_gives_no_chunks() {
    assert!(split_into_chunks(&[], 8).is_empty());
}

#[test]
fn upload_session_accumulates_stream_order() {
    let sb = sandbox();
    let mut session =
        begin_upload(&sb, b"sess-1".to_vec(), b"out.bin".to_vec(), b"", true).unwrap();
    // the driver appends every payload to the staging file; the test plays
    // that file's role with a plain buffer
    let mut staged: Vec<u8> = Vec::new();
    for part in [b"hel".as_slice(), b"lo ", b"world"] {
        session.append_chunk(part);
        staged.extend_from_slice(part);
    }
    assert_eq!(session.total_bytes, 11);
    let resp = session.finish(1234567);
    assert_eq!(resp.size, 11);
    assert_eq!(resp.file_id, b"sess-1".to_vec());
    assert_eq!(resp.filename, b"out.bin".to_vec());
    assert_eq!(resp.upload_time, 1234567);
    assert_eq!(staged, b"hello world".to_vec());
}

#[test]
fn round_trip_any_chunking() {
    // upload a file in several chunkings, then download it through several
    // buffer sizes: the bytes come back identical and the size equals n
    let content: Vec<u8> = (0u8..=199).cycle().take(500).collect();
    for upload_chunk in [1usize, 7, 499, 500] {
        let sb = sandbox();
        let mut session =
            begin_upload(&sb, b"rt".to_vec(), b"f".to_vec(), b"", true).unwrap();
        let mut staged: Vec<u8> = Vec::new();
        for c in split_into_chunks(&content, upload_chunk) {
            session.append_chunk(&c);
            staged.extend_from_slice(&c);
        }
        let resp = session.finish(0);
        assert_eq!(resp.size as usize, content.len());
        assert_eq!(staged, content);
        for download_buf in [1usize, 32, 512] {
            let served = split_into_chunks(&staged, download_buf);
            let mut got: Vec<u8> = Vec::new();
            for c in &served {
                got.extend_from_slice(c);
            }
            assert_eq!(got, content);
        }
    }
}

#[test]
fn round_trip_zero_byte_stream() {
    let sb = sandbox();
    let mut session = begin_upload(&sb, b"z".to_vec(), b"empty".to_vec(), b"", true).unwrap();
    session.append_chunk(b"");
    let resp = session.finish(0);
    assert_eq!(resp.size, 0);
    // downloading the empty file emits no chunks, and its bytes are empty
    let served = split_into_chunks(b"", 8);
    assert!(served.is_empty());
}

#[test]
fn upload_paths_and_temp_naming() {
    let sb = sandbox();
    let session =
        begin_upload(&sb, b"id-1".to_vec(), b"a.txt".to_vec(), b"docs", true).unwrap();
    assert_eq!(session.temp_path, b"/srv/storage/docs/.id-1.tmp".to_vec());
    assert_eq!(session.final_path, b"/srv/storage/docs/a.txt".to_vec());
    assert_eq!(temp_name_of(b"id-1"), b".id-1.tmp".to_vec());
}

#[test]
fn upload_validation_failures() {
    let sb = sandbox();
    let e = begin_upload(&sb, b"id".to_vec(), b"a.txt".to_vec(), b"../d", true).err().unwrap();
    assert_eq!(e, FsError::InvalidPath);
    let e = begin_upload(&sb, b"id".to_vec(), b"a/b".to_vec(), b"", true).err().unwrap();
    assert_eq!(e, FsError::InvalidArgument);
    let e = begin_upload(&sb, b"".to_vec(), b"a.txt".to_vec(), b"", true).err().unwrap();
    assert_eq!(e, FsError::InvalidArgument);
    let e = begin_upload(&sb, b"id".to_vec(), b"a.txt".to_vec(), b"gone", false).err().unwrap();
    assert_eq!(e, FsError::NotFound);
}

#[test]
fn temp_files_stay_out_of_listings() {
    let children = vec![
        RawEntry { name: temp_name_of(b"sess-9"), size: 3, is_directory: false, modified_at: 0 },
        RawEntry { name: b"visible.txt".to_vec(), size: 1, is_directory: false, modified_at: 0 },
    ];
    let out = list_entries(b"", children);
    assert_eq!(out.len(), 1);
    assert_eq!(out[0].name, b"visible.txt".to_vec());
}

#[test]
fn concurrent_uploads_same_directory_stay_apart() {
    let sb = sandbox();
    let mut one = begin_upload(&sb, b"id-a".to_vec(), b"one.bin".to_vec(), b"", true).unwrap();
    let mut two = begin_upload(&sb, b"id-b".to_vec(), b"two.bin".to_vec(), b"", true).unwrap();
    assert_ne!(one.temp_path, two.temp_path);
    assert_ne!(one.final_path, two.final_path);
    // interleaved chunks land in each session's own staging file
    let mut staged_one: Vec<u8> = Vec::new();
    let mut staged_two: Vec<u8> = Vec::new();
    one.append_chunk(b"aa");
    staged_one.extend_from_slice(b"aa");
    two.append_chunk(b"zzz");
    staged_two.extend_from_slice(b"zzz");
    one.append_chunk(b"a");
    staged_one.extend_from_slice(b"a");
    let r1 = one.finish(5);
    let r2 = two.finish(6);
    assert_eq!(r1.size, 3);
    assert_eq!(r2.size, 3);
    assert_eq!(staged_one, b"aaa".to_vec());
    assert_eq!(staged_two, b"zzz".to_vec());
}

#[test]
fn concurrent_uploads_same_filename_share_final_path() {
    // the last rename wins; both sessions aim at one final path but
    // distinct staging files, so no mixed bytes can appear under the name
    let sb = sandbox();
    let one = begin_upload(&sb, b"id-a".to_vec(), b"same.bin".to_vec(), b"", true).unwrap();
    let two = begin_upload(&sb, b"id-b".to_vec(), b"same.bin".to_vec(), b"", true).unwrap();
    assert_eq!(one.final_path, two.final_path);
    assert_ne!(one.temp_path, two.temp_path);
}

#[test]
fn prepare_upload_takes_base_name() {
    let start = prepare_upload(b"/home/user/notes.txt", b"docs".to_vec()).unwrap();
    assert_eq!(start.filename, b"notes.txt".to_vec());
    assert_eq!(start.target_dir, b"docs".to_vec());
    assert_eq!(start.upload_id.len(), 36);
    assert!(!start.upload_id.contains(&b'/'));

    let e = prepare_upload(b"/ends/in/slash/", b"".to_vec()).err().unwrap();
    assert_eq!(e, FsError::InvalidArgument);
}

#[test]
fn fresh_ids_differ() {
    let a = grpc_files::client::fresh_upload_id();
    let b = grpc_files::client::fresh_upload_id();
    assert_ne!(a, b);
    assert_eq!(a.len(), 36);
}
