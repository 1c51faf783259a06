use artichoke::onion_client::{
    content_length, download_file_name, file_request, plan_download, plan_from_parts, plan_workers,
    range_request, size_request, worker_ranges, ByteRange, DownloadPlan, SizeError, UriParts,
    UrlError, DEFAULT_PORT, MAX_URL_LEN, NUM_WORKERS,
};
use artichoke::reassembly::PieceWriter;

fn plan() -> DownloadPlan {
    plan_download("http://abc.onion/static/song.mp3").unwrap()
}

#[test]
fn a_plain_url_is_fetched_from_its_host() {
    let plan = plan();
    assert_eq!(plan.host, "abc.onion");
    assert_eq!(plan.port, 80);
    assert_eq!(DEFAULT_PORT, 80);
    assert_eq!(plan.target, "/static/song.mp3");
    assert_eq!(plan.file_name, "song.mp3");
}

#[test]
fn ports_and_queries_are_kept() {
    let plan = plan_download("http://abc.onion:8080/a/b?c=d").unwrap();
    assert_eq!(plan.port, 8080);
    assert_eq!(plan.target, "/a/b?c=d");
    assert_eq!(plan.file_name, "b?c=d");
}

#[test]
fn a_url_without_path_is_stored_under_a_default_name() {
    let plan = plan_download("http://abc.onion").unwrap();
    assert_eq!(plan.target, "/");
    assert_eq!(plan.file_name, "downloaded_file");
    assert_eq!(plan_download("http://abc.onion/x/").unwrap().file_name, "downloaded_file");
}

#[test]
fn every_plain_path_comes_out_as_it_is() {
    let mut path = String::from("/static/");
    for code in 0x21..0x100u32 {
        let c = char::from_u32(code).unwrap();
        let special = ['#', '<', '>', '?', '`', '/', '\u{7f}'];
        if !special.contains(&c) {
            path.push(c);
        }
    }
    path.push('\u{2603}');
    let plan = plan_download(&format!("http://a-b.C9.onion{}", path)).unwrap();
    assert_eq!(plan.host, "a-b.C9.onion");
    assert_eq!(plan.port, 80);
    assert_eq!(plan.target, path);
    assert_eq!(plan.file_name, &path[8..]);
}

#[test]
fn every_plain_host_comes_out_as_it_is() {
    for host in ["a", "-", ".", "..", "0", "1.2.3.4", "A.b-c.onion", "-.-"] {
        let plan = plan_download(&format!("http://{}/x", host)).unwrap();
        assert_eq!(plan.host, host);
        assert_eq!(plan.port, 80);
        assert_eq!(plan.target, "/x");
    }
}

#[test]
fn the_longest_url_is_accepted() {
    let start = "http://h/";
    let longest = format!("{}{}", start, "x".repeat(MAX_URL_LEN - start.len()));
    assert_eq!(plan_download(&longest).unwrap().host, "h");
    let longer = format!("{}x", longest);
    assert!(matches!(plan_download(&longer), Err(UrlError::Invalid { .. })));
}

#[test]
fn what_is_no_url_is_refused_with_the_reason() {
    match plan_download("http://a b/") {
        Err(UrlError::Invalid { complaint }) => assert_eq!(complaint, "invalid uri character"),
        other => panic!("{:?}", other),
    }
    match plan_download("") {
        Err(UrlError::Invalid { complaint }) => assert_eq!(complaint, "empty string"),
        other => panic!("{:?}", other),
    }
    let unopened = plan_download("http://error_decrypting/static/x").unwrap();
    assert_eq!(unopened.host, "error_decrypting");
}

#[test]
fn a_url_without_host_is_refused() {
    assert!(matches!(plan_download("/static/x"), Err(UrlError::NoHost)));
    assert!(matches!(plan_download("*"), Err(UrlError::NoHost)));
}

#[test]
fn plans_are_made_of_parts() {
    let parts = UriParts { host: Some("h".to_string()), port: None, target: None };
    let plan = plan_from_parts(parts);
    assert_eq!(plan.host, "h");
    assert_eq!(plan.port, 80);
    assert_eq!(plan.target, "/");
    assert_eq!(plan.file_name, "downloaded_file");
}

#[test]
fn downloads_are_named_after_the_last_slash() {
    assert_eq!(download_file_name("/static/a.txt"), "a.txt");
    assert_eq!(download_file_name("a.txt"), "a.txt");
    assert_eq!(download_file_name("/"), "downloaded_file");
    assert_eq!(download_file_name(""), "downloaded_file");
}

#[test]
fn the_size_is_asked_for_first() {
    let request = size_request(&plan());
    assert_eq!(request.method, "HEAD");
    assert_eq!(request.target, "/static/song.mp3");
    assert_eq!(request.host, "abc.onion");
    assert_eq!(request.range, None);
}

#[test]
fn a_file_can_be_asked_for_at_once() {
    let request = file_request("abc.onion", "/static/a");
    assert_eq!(request.method, "GET");
    assert_eq!(request.target, "/static/a");
    assert_eq!(request.host, "abc.onion");
    assert_eq!(request.range, None);
}

#[test]
fn sizes_are_read_out_of_the_header() {
    assert_eq!(content_length(Some(b"1024")), Some(1024));
    assert_eq!(content_length(Some(b"+5")), Some(5));
    assert_eq!(content_length(Some(b"")), None);
    assert_eq!(content_length(Some(b"12 ")), None);
    assert_eq!(content_length(Some(b"\xff")), None);
    assert_eq!(content_length(Some(b"18446744073709551616")), None);
    assert_eq!(content_length(None), None);
}

#[test]
fn files_are_divided_among_the_workers() {
    let ranges: Vec<(u64, u64)> =
        worker_ranges(10).iter().map(|range| (range.first, range.last)).collect();
    assert_eq!(ranges, vec![(0, 1), (2, 3), (4, 5), (6, 9)]);
    let ranges: Vec<(u64, u64)> =
        worker_ranges(4).iter().map(|range| (range.first, range.last)).collect();
    assert_eq!(ranges, vec![(0, 0), (1, 1), (2, 2), (3, 3)]);
    let ranges = worker_ranges(u64::MAX);
    assert_eq!(ranges[3].first, 13_835_058_055_282_163_709);
    assert_eq!(ranges[3].last, u64::MAX - 1);
}

#[test]
fn pieces_follow_each_other() {
    for total in (4..200u64).chain([1_000_003, u64::MAX]) {
        let ranges = worker_ranges(total);
        assert_eq!(ranges.len() as u64, NUM_WORKERS);
        let mut next = 0;
        for range in &ranges {
            assert_eq!(range.first, next);
            assert!(range.first <= range.last);
            next = range.last + 1;
        }
        assert_eq!(next, total);
    }
}

#[test]
fn every_byte_lies_in_one_piece() {
    let ranges = worker_ranges(23);
    for at in 0..23u64 {
        let owners = ranges.iter().filter(|range| range.first <= at && at <= range.last).count();
        assert_eq!(owners, 1);
    }
}

#[test]
fn pieces_are_asked_for_by_range() {
    let request = range_request(&plan(), ByteRange { first: 100, last: 18_446_744_073_709_551_615 });
    assert_eq!(request.method, "GET");
    assert_eq!(request.target, "/static/song.mp3");
    assert_eq!(request.host, "abc.onion");
    assert_eq!(request.range.unwrap(), "bytes=100-18446744073709551615");
}

#[test]
fn workers_get_their_jobs() {
    let jobs = plan_workers(&plan(), Some(b"10")).unwrap();
    let ranges: Vec<String> = jobs.iter().map(|job| job.request.range.clone().unwrap()).collect();
    assert_eq!(ranges, vec!["bytes=0-1", "bytes=2-3", "bytes=4-5", "bytes=6-9"]);
    for job in &jobs {
        assert_eq!(job.request.method, "GET");
        assert_eq!(job.request.host, "abc.onion");
        assert_eq!(job.request.target, "/static/song.mp3");
    }
    assert_eq!(jobs[3].range, ByteRange { first: 6, last: 9 });
}

#[test]
fn files_that_cannot_be_divided_are_refused() {
    assert!(matches!(plan_workers(&plan(), None), Err(SizeError::Missing)));
    assert!(matches!(plan_workers(&plan(), Some(b"many")), Err(SizeError::Missing)));
    assert!(matches!(plan_workers(&plan(), Some(b"3")), Err(SizeError::TooSmall)));
    assert!(matches!(plan_workers(&plan(), Some(b"0")), Err(SizeError::TooSmall)));
    assert!(plan_workers(&plan(), Some(b"4")).is_ok());
}

#[test]
fn frames_go_behind_each_other() {
    let mut writer = PieceWriter::new(ByteRange { first: 6, last: 9 });
    assert_eq!(writer.position(), 6);
    assert_eq!(writer.take(b"ab"), 6);
    assert_eq!(writer.take(b""), 8);
    assert_eq!(writer.take(b"c"), 8);
    assert_eq!(writer.position(), 9);
}

#[test]
fn a_download_comes_out_whole() {
    let content: Vec<u8> = (0..103u8).collect();
    let mut file = vec![0xffu8; content.len()];
    let mut ranges = worker_ranges(content.len() as u64);
    ranges.reverse();
    for range in ranges {
        let mut writer = PieceWriter::new(range);
        let piece = &content[range.first as usize..=range.last as usize];
        for frame in piece.chunks(7) {
            let at = writer.take(frame) as usize;
            file[at..at + frame.len()].copy_from_slice(frame);
        }
    }
    assert_eq!(file, content);
}
