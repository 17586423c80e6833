use udfpatch::{grab_blobs, DirentReply, FileReply, Udf, UdfDirent, UdfError};

fn reply(name: &[u8], reported_length: u64) -> DirentReply {
    DirentReply { name: name.to_vec(), reported_length }
}

fn good_file(name: &[u8], content: &[u8], padded_to: usize) -> FileReply {
    let mut data = content.to_vec();
    data.resize(padded_to, 0);
    FileReply {
        entry: Some(reply(name, content.len() as u64)),
        data,
        transferred: content.len() as isize,
    }
}

#[test]
fn open_succeeds_on_handle() {
    assert!(Udf::open(true).is_ok());
    assert!(Udf::open(false).is_err());
}

#[test]
fn root_request_marshalling() {
    let udf = match Udf::open(true) {
        Ok(u) => u,
        Err(_) => panic!("open failed"),
    };
    assert_eq!(udf.root_request(None), (true, 0));
    assert_eq!(udf.root_request(Some(3)), (false, 3));
}

#[test]
fn length_rejects_sentinel() {
    let entry = UdfDirent { name: b"cdboot.efi".to_vec(), reported_length: 0x7fffffff };
    assert_eq!(entry.length(), Err(UdfError));
    let entry = UdfDirent { name: b"cdboot.efi".to_vec(), reported_length: 0x7ffffffe };
    assert_eq!(entry.length(), Ok(0x7ffffffe));
}

#[test]
fn filename_is_kept() {
    let entry = UdfDirent { name: b"cdboot.efi".to_vec(), reported_length: 12 };
    assert_eq!(entry.filename().as_slice(), b"cdboot.efi");
}

#[test]
fn blocks_to_read_rounds_up() {
    let cases: [(u64, u64); 6] = [(0, 0), (1, 1), (2047, 1), (2048, 1), (2049, 2), (10240, 5)];
    for (len, blocks) in cases {
        let entry = UdfDirent { name: Vec::new(), reported_length: len };
        assert_eq!(entry.blocks_to_read(), Ok(blocks));
    }
    let entry = UdfDirent { name: Vec::new(), reported_length: 0x7fffffff };
    assert_eq!(entry.blocks_to_read(), Err(UdfError));
}

#[test]
fn read_takes_exactly_the_reported_bytes() {
    let entry = UdfDirent { name: b"a".to_vec(), reported_length: 5 };
    let mut data = b"hello".to_vec();
    data.resize(2048, 0xAA);
    let blob = entry.read(data, 5).expect("read should succeed");
    assert_eq!(blob, b"hello".to_vec());
}

#[test]
fn read_rejects_partial_transfer() {
    let entry = UdfDirent { name: b"a".to_vec(), reported_length: 5 };
    assert_eq!(entry.read(vec![0u8; 2048], 4), Err(UdfError));
    let entry = UdfDirent { name: b"a".to_vec(), reported_length: 5 };
    assert_eq!(entry.read(vec![0u8; 2048], -1), Err(UdfError));
}

#[test]
fn read_rejects_short_buffer() {
    let entry = UdfDirent { name: b"a".to_vec(), reported_length: 5 };
    assert_eq!(entry.read(vec![0u8; 3], 5), Err(UdfError));
}

#[test]
fn read_rejects_unknown_length() {
    let entry = UdfDirent { name: b"a".to_vec(), reported_length: 0x7fffffff };
    assert_eq!(entry.read(vec![0u8; 2048], 5), Err(UdfError));
}

#[test]
fn grab_blobs_returns_both_blobs_with_reported_lengths() {
    let primary = good_file(b"cdboot.efi", b"PROMPT", 2048);
    let alternate = good_file(b"cdboot_noprompt.efi", b"SILENT", 2048);
    let (a, b) = grab_blobs(true, Some(reply(b"/", 0)), primary, alternate)
        .expect("extraction should succeed");
    assert_eq!(a, b"PROMPT".to_vec());
    assert_eq!(b, b"SILENT".to_vec());
    assert_eq!(a.len() as u64, 6);
    assert_eq!(b.len() as u64, 6);
}

#[test]
fn grab_blobs_fails_when_volume_does_not_open() {
    let primary = good_file(b"cdboot.efi", b"PROMPT", 2048);
    let alternate = good_file(b"cdboot_noprompt.efi", b"SILENT", 2048);
    assert_eq!(grab_blobs(false, Some(reply(b"/", 0)), primary, alternate), Err(UdfError));
}

#[test]
fn grab_blobs_fails_without_root() {
    let primary = good_file(b"cdboot.efi", b"PROMPT", 2048);
    let alternate = good_file(b"cdboot_noprompt.efi", b"SILENT", 2048);
    assert_eq!(grab_blobs(true, None, primary, alternate), Err(UdfError));
}

#[test]
fn grab_blobs_fails_when_a_path_is_missing() {
    let missing = FileReply { entry: None, data: Vec::new(), transferred: 0 };
    let alternate = good_file(b"cdboot_noprompt.efi", b"SILENT", 2048);
    assert_eq!(grab_blobs(true, Some(reply(b"/", 0)), missing, alternate), Err(UdfError));
}

#[test]
fn grab_blobs_fails_on_bad_transfer() {
    let primary = good_file(b"cdboot.efi", b"PROMPT", 2048);
    let mut alternate = good_file(b"cdboot_noprompt.efi", b"SILENT", 2048);
    alternate.transferred = 5;
    assert_eq!(grab_blobs(true, Some(reply(b"/", 0)), primary, alternate), Err(UdfError));
}
