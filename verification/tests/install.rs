use optima::install::{
    all_files, candidate_paths, chosen_layout, decompress, hash_of_slice, hash_path_char,
    manifest_path, manifest_result, part_path, plan, probe_hash, probe_paths, sample_hash,
    signed_urls, slice_path, slice_paths, target_path, total_bytes, unpack_manifest, unpack_result,
    Chunk, CompressionMethod, DownloadReq, DownloadService, DownloadUrls, Installing, ManifestFile,
    Plan, Signing, SliceLayout, Step, UrlResponse,
};
use std::io::Write;

fn file(name: &str, size: u64, slices: &[&[u8]], packed: &[Option<&[u8]>]) -> ManifestFile {
    ManifestFile {
        name: name.to_string(),
        size,
        slices: slices.iter().map(|s| s.to_vec()).collect(),
        slice_list: packed.iter().map(|s| s.map(|b| b.to_vec())).collect(),
    }
}

fn zlib(data: &[u8]) -> Vec<u8> {
    let mut e = flate2::write::ZlibEncoder::new(Vec::new(), flate2::Compression::default());
    e.write_all(data).unwrap();
    e.finish().unwrap()
}

fn deflate(data: &[u8]) -> Vec<u8> {
    let mut e = flate2::write::DeflateEncoder::new(Vec::new(), flate2::Compression::default());
    e.write_all(data).unwrap();
    e.finish().unwrap()
}

#[test]
fn buckets_swap_the_digits_of_the_first_byte() {
    assert_eq!(hash_path_char("00FF"), '0');
    assert_eq!(hash_path_char("10AB"), 'g');
    assert_eq!(hash_path_char("0A"), 'a');
    assert_eq!(hash_path_char("FF"), 'v');
    assert_eq!(hash_path_char("2F"), 'f');
    assert_eq!(hash_path_char("3F"), 'v');
    assert_eq!(hash_path_char(""), '0');
    assert_eq!(hash_path_char("5"), 'g');
    assert_eq!(hash_path_char("zz"), '0');
}

#[test]
fn every_first_byte_has_its_bucket() {
    let digits: Vec<char> = "0123456789abcdefghijklmnopqrstuv".chars().collect();
    for b in 0..=255usize {
        let hash = format!("{b:02X}99");
        let (high, low) = (b / 16, b % 16);
        assert_eq!(hash_path_char(&hash), digits[low + if high % 2 == 0 { 0 } else { 16 }]);
    }
}

#[test]
fn slices_are_found_under_their_hash() {
    assert_eq!(slice_path(SliceLayout::V3Bucket, "10AB"), "slices_v3/g/10AB");
    assert_eq!(slice_path(SliceLayout::Flat, "10AB"), "slices/10AB");
    assert_eq!(manifest_path("abc"), "manifests/abc.manifest");
    assert_ne!(
        slice_path(SliceLayout::V3Bucket, "10AB"),
        slice_path(SliceLayout::V3Bucket, "10AC")
    );
}

#[test]
fn a_zstd_slice_unpacks() {
    let packed = zstd::encode_all(&b"hello hello hello"[..], 3).unwrap();
    let r = decompress(CompressionMethod::Zstd, 1, &packed).unwrap();
    assert_eq!(r, b"hello hello hello");
}

#[test]
fn a_deflated_slice_unpacks_in_either_form() {
    let text = b"slice slice slice slice";
    for packed in [zlib(text), deflate(text)] {
        assert_eq!(decompress(CompressionMethod::Deflate, 2, &packed).unwrap(), text);
    }
}

#[test]
fn a_slice_that_is_not_packed_stays() {
    assert_eq!(decompress(CompressionMethod::Other, 0, b"raw").unwrap(), b"raw");
}

#[test]
fn a_broken_slice_is_described() {
    let e = decompress(CompressionMethod::Zstd, 1, b"\x01AB\"").unwrap_err();
    assert_eq!(
        e.context,
        "zstd decompress (method=1, 4 bytes, head=01414222, text=\"\\u{1}AB\\\"\")"
    );
    assert_eq!(e.cause, "Unknown frame descriptor");
    let e = decompress(CompressionMethod::Deflate, -3, b"\x78\xff\xff").unwrap_err();
    assert_eq!(
        e.context,
        "deflate decompress (method=-3, 3 bytes, zlib_header=true, head=78ffff)"
    );
    // The message is that of the raw form, which is tried last.
    assert_eq!(e.cause, "incomplete deflate stream");
}

#[test]
fn the_message_of_a_decoder_is_kept() {
    let m = CompressionMethod::Deflate;
    assert_eq!(unpack_result(m, 2, b"x", Ok(vec![1])).unwrap(), vec![1]);
    let e = unpack_result(m, 2, b"x", Err("bad".to_string())).unwrap_err();
    assert_eq!(e.cause, "bad");
    assert_eq!(
        e.context,
        "deflate decompress (method=2, 1 bytes, zlib_header=false, head=78)"
    );
}

#[test]
fn a_manifest_is_packed_behind_its_header() {
    let mut f = vec![0u8; 356];
    let e = unpack_manifest(&f).unwrap_err();
    assert_eq!((e.context.as_str(), e.cause.as_str()), ("manifest is only 356 bytes", ""));
    f.extend(zlib(b"manifest"));
    assert_eq!(unpack_manifest(&f).unwrap(), b"manifest");
    f[356] = 0;
    let e = unpack_manifest(&f).unwrap_err();
    assert_eq!(
        (e.context.as_str(), e.cause.as_str()),
        ("inflating manifest", "corrupt deflate stream")
    );
    assert_eq!(manifest_result(Ok(vec![1])).unwrap(), vec![1]);
    assert_eq!(manifest_result(Err("bad".to_string())).unwrap_err().cause, "bad");
}

#[test]
fn the_files_of_a_manifest() {
    let chunks = vec![
        Chunk { files: vec![file("a", 3, &[], &[]), file("b", 4, &[], &[])] },
        Chunk { files: vec![] },
        Chunk { files: vec![file("c", 5, &[], &[])] },
    ];
    let files = all_files(&chunks);
    let names: Vec<&str> = files.iter().map(|f| f.name.as_str()).collect();
    assert_eq!(names, vec!["a", "b", "c"]);
    assert_eq!(total_bytes(&files), Some(12));
    let big = file("x", u64::MAX, &[], &[]);
    let one = file("y", 1, &[], &[]);
    assert_eq!(total_bytes(&vec![&big]), Some(u64::MAX));
    assert_eq!(total_bytes(&vec![&big, &one]), None);
}

#[test]
fn slices_are_fetched_by_the_hash_of_their_packed_bytes() {
    let f = file("a", 1, &[&[0x11], &[0x22]], &[Some(&[0xab]), Some(&[]), None, Some(&[0xcd])]);
    assert_eq!(hash_of_slice(&f, 0), "AB");
    assert_eq!(hash_of_slice(&f, 1), "22");
    assert_eq!(hash_of_slice(&f, 2), "");
    let paths = slice_paths(&f, SliceLayout::Flat);
    assert_eq!(paths, vec!["slices/AB", "slices/22", "slices/", "slices/CD"]);
}

#[test]
fn the_layout_is_tried_with_a_slice() {
    let empty = file("e", 0, &[&[9]], &[]);
    let blank = file("n", 1, &[], &[None]);
    let good = file("g", 1, &[], &[Some(&[0x10, 0xab])]);
    assert_eq!(sample_hash(&vec![&empty, &blank]), None);
    assert_eq!(sample_hash(&vec![&empty, &blank, &good]), Some("10AB".to_string()));
    assert_eq!(candidate_paths("10AB"), vec!["slices_v3/g/10AB", "slices/10AB"]);
    assert_eq!(chosen_layout(&vec![true]), SliceLayout::V3Bucket);
    assert_eq!(chosen_layout(&vec![false, true]), SliceLayout::Flat);
    assert_eq!(chosen_layout(&vec![false, false]), SliceLayout::V3Bucket);
    assert_eq!(chosen_layout(&vec![]), SliceLayout::V3Bucket);
}

#[test]
fn what_is_done_for_a_file() {
    let f = file("a", 10, &[], &[None]);
    assert_eq!(plan(&f, None), Plan::Fetch);
    assert_eq!(plan(&f, Some(9)), Plan::Fetch);
    assert_eq!(plan(&f, Some(10)), Plan::Skip);
    assert_eq!(plan(&file("e", 0, &[], &[]), Some(0)), Plan::Touch);
}

#[test]
fn separators_of_windows_are_mapped() {
    assert_eq!(target_path("/g", "data\\x\\y.bin"), "/g/data/x/y.bin");
    assert_eq!(part_path("/g/data/y.bin"), "/g/data/y.optima-part");
    assert_ne!(part_path("/g/y"), "/g/y");
}

#[test]
fn an_installation_goes_on_where_it_was() {
    let a = file("a", 1, &[], &[None]);
    let b = file("b", 2, &[], &[Some(&[1])]);
    let c = file("c", 0, &[], &[]);
    let files = vec![&a, &b, &c];
    let mut run = Installing::new();
    assert_eq!(run.target(&files, "/g"), Some("/g/a".to_string()));
    assert!(matches!(run.advance(&files, "/g", SliceLayout::Flat, Some(1)), Step::Skip));
    match run.advance(&files, "/g", SliceLayout::Flat, Some(1)) {
        Step::Fetch { part, slices, progress } => {
            assert_eq!(part, "/g/b.optima-part");
            assert_eq!(slices, vec!["slices/01"]);
            assert_eq!(progress, None);
        }
        other => panic!("{other:?}"),
    }
    assert!(matches!(run.advance(&files, "/g", SliceLayout::Flat, None), Step::Touch));
    assert_eq!(run.target(&files, "/g"), None);
    assert_eq!(
        run.summary("Game", "/g"),
        vec!["  (1 files already present, skipped)", "Installed Game to /g"]
    );
    assert_eq!(Installing::new().summary("Game", "/g"), vec!["Installed Game to /g"]);
}

#[test]
fn progress_is_shown_after_each_fifth_file_and_the_last() {
    let f = file("f", 1, &[], &[None]);
    let files = vec![&f; 7];
    let mut run = Installing::new();
    let mut shown = Vec::new();
    while run.target(&files, "/g").is_some() {
        if let Step::Fetch { progress: Some(p), .. } =
            run.advance(&files, "/g", SliceLayout::Flat, None)
        {
            shown.push(p);
        }
    }
    assert_eq!(shown, vec!["  [5/7] f", "  [7/7] f"]);
}

#[test]
fn requests_to_the_download_service() {
    let mut s = DownloadService::new(4);
    match s.initialize("token") {
        DownloadReq::Initialize { request_id: 1, ownership_token } => {
            assert_eq!(ownership_token, "token");
        }
        other => panic!("{other:?}"),
    }
    match s.sign(720, vec!["p".to_string()]) {
        DownloadReq::Urls { request_id: 2, product_id: 720, paths } => {
            assert_eq!(paths, vec!["p"]);
        }
        other => panic!("{other:?}"),
    }
    assert_eq!((s.conn, s.req_id), (4, 3));
    assert_eq!(s.next_id(), 3);
}

#[test]
fn signed_addresses_keep_their_order() {
    let urls = |l: &[&str]| DownloadUrls { urls: l.iter().map(|s| s.to_string()).collect() };
    let rsp = Some(vec![
        UrlResponse { download_urls: vec![urls(&["a", "b"]), urls(&[])] },
        UrlResponse { download_urls: vec![urls(&["c"])] },
    ]);
    assert_eq!(signed_urls(&rsp), vec!["a", "b", "c"]);
    assert!(signed_urls(&None).is_empty());
}

#[test]
fn paths_are_signed_in_batches() {
    let paths: Vec<String> = (0..250).map(|i| i.to_string()).collect();
    let mut s = Signing::new(paths.clone());
    let mut sizes = Vec::new();
    while let Some(b) = s.batch() {
        sizes.push(b.len());
        s.signed(&b);
    }
    assert_eq!(sizes, vec![100, 100, 50]);
    assert_eq!(s.urls, paths);
    assert!(Signing::new(vec![]).batch().is_none());
}

#[test]
fn a_batch_is_given_up_after_ten_reconnects() {
    let mut s = Signing::new(vec!["p".to_string(); 101]);
    for _ in 0..10 {
        assert!(s.failed());
    }
    assert_eq!(s.retry.attempt, 10);
    assert!(!s.failed());
    let mut s = Signing::new(vec!["p".to_string(); 101]);
    assert!(s.failed());
    s.signed(&vec![]);
    assert_eq!(s.retry.attempt, 0);
    assert_eq!(s.batch().unwrap().len(), 1);
}

#[test]
fn the_layout_can_be_looked_for_by_hand() {
    let none = file("n", 1, &[], &[Some(&[1])]);
    let some = file("s", 1, &[&[0x10, 0xab]], &[]);
    assert_eq!(probe_hash(&vec![&none]), None);
    assert_eq!(probe_hash(&vec![&none, &some]), Some("10AB".to_string()));
    let l = probe_paths("10AB");
    assert_eq!(l.len(), 20);
    assert_eq!(l[0], ("slices_v3/g/10AB".to_string(), "slices_v3/bucket/U".to_string()));
    assert_eq!(l[1], ("slices_v3/10AB".to_string(), "slices_v3/flat/U".to_string()));
    assert_eq!(l[2], ("slices_v3/g/10ab".to_string(), "slices_v3/bucket/L".to_string()));
    assert_eq!(l[19], ("chunks/10ab".to_string(), "chunks/flat/L".to_string()));
    assert_eq!(l[12].1, "sliceList/bucket/U");
}
