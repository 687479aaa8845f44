use dav_traverse::{
    directory_listing, is_collection_url, is_ok, parse, record_report, redirect_target,
    tokenize, Arrival, Completion, DirectoryListing, DrainState, FromXmlError, ListingError,
    PollAction, RedirectError, Report, Token, TraversalReport, XmlTokenizeError,
};
use std::time::Duration;

#[test]
fn ok_status_lines() {
    assert!(is_ok("HTTP/1.1 200 OK"));
    assert!(is_ok("  HTTP/2 200"));
    assert!(is_ok("HTTP/1.0\t200\tFine"));
    assert!(!is_ok("HTTP/1.1 404 Not Found"));
    assert!(!is_ok("HTTP/1.1 2000 OK"));
    assert!(!is_ok("HTTPS/1.1 200 OK"));
    assert!(!is_ok("HTTP/1.1"));
    assert!(!is_ok(""));
    assert!(!is_ok("200 HTTP/1.1"));
}

#[test]
fn tokens_by_namespace() {
    assert_eq!(
        Token::open("href".to_string(), None),
        Token::OpenStd("href".to_string())
    );
    assert_eq!(
        Token::open("href".to_string(), Some("DAV:".to_string())),
        Token::OpenStd("href".to_string())
    );
    assert_eq!(
        Token::close("note".to_string(), Some("urn:x".to_string())),
        Token::CloseExt { name: "note".to_string(), namespace: "urn:x".to_string() }
    );
    assert_eq!(
        Token::close("href".to_string(), None),
        Token::CloseStd("href".to_string())
    );
}

#[test]
fn tokenize_splits_namespaces_and_text() {
    let src = "<?xml version=\"1.0\"?><multistatus xmlns=\"DAV:\"><!-- c --><x:a xmlns:x=\"urn:x\">hi</x:a></multistatus>";
    let tokens = tokenize(src.as_bytes(), &None).unwrap();
    assert_eq!(
        tokens,
        vec![
            Token::OpenStd("multistatus".to_string()),
            Token::OpenExt { name: "a".to_string(), namespace: "urn:x".to_string() },
            Token::Text("hi".to_string()),
            Token::CloseExt { name: "a".to_string(), namespace: "urn:x".to_string() },
            Token::CloseStd("multistatus".to_string()),
        ]
    );
}

#[test]
fn processing_instruction_is_refused() {
    let src = "<?xml version=\"1.0\"?><multistatus xmlns=\"DAV:\"><?php echo 1; ?></multistatus>";
    assert_eq!(
        tokenize(src.as_bytes(), &None),
        Err(XmlTokenizeError::ProcessingInstruction)
    );
}

#[test]
fn malformed_xml_is_a_reader_error() {
    let src = "<multistatus xmlns=\"DAV:\"><response></multistatus>";
    assert!(matches!(
        tokenize(src.as_bytes(), &None),
        Err(XmlTokenizeError::Xml(_))
    ));
}

#[test]
fn stray_text_outside_extensions_is_refused() {
    let tokens = vec![
        Token::OpenStd("multistatus".to_string()),
        Token::Text("stray".to_string()),
        Token::CloseStd("multistatus".to_string()),
    ];
    assert_eq!(parse(&tokens), Err(FromXmlError::Parse));
}

#[test]
fn mismatched_extension_end_is_refused() {
    let tokens = vec![
        Token::OpenStd("multistatus".to_string()),
        Token::OpenExt { name: "a".to_string(), namespace: "urn:x".to_string() },
        Token::CloseExt { name: "b".to_string(), namespace: "urn:x".to_string() },
        Token::CloseStd("multistatus".to_string()),
    ];
    assert_eq!(parse(&tokens), Err(FromXmlError::Parse));
}

#[test]
fn trailing_tokens_are_refused() {
    let tokens = vec![
        Token::OpenStd("multistatus".to_string()),
        Token::CloseStd("multistatus".to_string()),
        Token::OpenStd("multistatus".to_string()),
    ];
    assert_eq!(parse(&tokens), Err(FromXmlError::Parse));
}

#[test]
fn collection_urls_ignore_trailing_slashes() {
    assert!(is_collection_url("https://h/a/b/", "https://h/a/b"));
    assert!(is_collection_url("https://h/a/b", "https://h/a/b//"));
    assert!(!is_collection_url("https://h/a/b/", "https://h/a/bc/"));
    assert!(!is_collection_url("https://h/a/", "https://h/a/b/"));
}

const BODY: &str = r#"<?xml version="1.0" encoding="utf-8"?>
<multistatus xmlns="DAV:">
  <response><href>/foo/bar/</href><propstat><prop><resourcetype><collection/></resourcetype></prop><status>HTTP/1.1 200 OK</status></propstat></response>
  <response><href>/foo/bar/baz/</href><propstat><prop><resourcetype><collection/></resourcetype></prop><status>HTTP/1.1 200 OK</status></propstat></response>
  <response><href>/foo/bar/qux.txt</href><propstat><prop><resourcetype/></prop><status>HTTP/1.1 200 OK</status></propstat></response>
</multistatus>
"#;

#[test]
fn listing_resolves_hrefs_and_drops_the_collection_itself() {
    let dl = directory_listing(
        BODY.as_bytes(),
        Some("text/xml; charset=utf-8"),
        "https://www.example.com/quux",
        "https://www.example.com/foo/bar",
    )
    .unwrap();
    assert_eq!(
        dl,
        DirectoryListing {
            directories: vec!["https://www.example.com/foo/bar/baz/".to_string()],
            files: vec!["https://www.example.com/foo/bar/qux.txt".to_string()],
        }
    );
}

#[test]
fn listing_with_unresolvable_base_is_refused() {
    assert_eq!(
        directory_listing(BODY.as_bytes(), None, "not a url", "not a url"),
        Err(ListingError::UnresolvableHref)
    );
}

#[test]
fn listing_passes_body_errors_on() {
    let body = BODY.replace("HTTP/1.1 200 OK", "HTTP/1.1 500 Broken");
    assert_eq!(
        directory_listing(body.as_bytes(), None, "https://h/", "https://h/foo/bar/"),
        Err(ListingError::Body(FromXmlError::BadStatus {
            href: "/foo/bar/".to_string(),
            status: "HTTP/1.1 500 Broken".to_string(),
        }))
    );
}

#[test]
fn latin1_charset_from_content_type() {
    let mut body: Vec<u8> = b"<multistatus xmlns=\"DAV:\"><response><href>/caf".to_vec();
    body.push(0xE9);
    body.extend_from_slice(b"</href><propstat><prop><resourcetype/></prop><status>HTTP/1.1 200 OK</status></propstat></response></multistatus>");
    let dl = directory_listing(
        &body,
        Some("text/xml; charset=iso-8859-1"),
        "https://h/",
        "https://h/",
    )
    .unwrap();
    assert_eq!(dl.files, vec!["https://h/caf%C3%A9".to_string()]);
}

#[test]
fn redirect_targets() {
    assert_eq!(redirect_target(None), Ok(None));
    assert_eq!(
        redirect_target(Some("https://example.com/elsewhere")),
        Ok(Some("https://example.com/elsewhere".to_string()))
    );
    assert_eq!(
        redirect_target(Some("HTTPS://Example.com")),
        Ok(Some("https://example.com/".to_string()))
    );
    assert_eq!(
        redirect_target(Some("/elsewhere")),
        Err(RedirectError::NotAUrl("/elsewhere".to_string()))
    );
}

#[test]
fn requests_counts_both_kinds() {
    let report = TraversalReport {
        workers: 2,
        directory_request_times: vec![Duration::from_millis(5), Duration::from_millis(7)],
        file_request_times: vec![Duration::from_millis(1), Duration::from_millis(2)],
        overall_time: Duration::from_millis(20),
    };
    assert_eq!(report.requests(), 4);
}

#[test]
fn reports_are_filed_by_kind() {
    let mut dirs = Vec::new();
    let mut files = Vec::new();
    let reports = vec![
        Report::Dir { url: "https://h/".to_string(), elapsed: Duration::from_millis(3) },
        Report::Dir { url: "https://h/a/".to_string(), elapsed: Duration::from_millis(4) },
        Report::File { url: "https://h/b".to_string(), elapsed: Duration::from_millis(1), target: None },
        Report::File {
            url: "https://h/a/c".to_string(),
            elapsed: Duration::from_millis(2),
            target: Some("https://h/elsewhere".to_string()),
        },
    ];
    for r in &reports {
        record_report(r, &mut dirs, &mut files);
    }
    assert_eq!(dirs, vec![Duration::from_millis(3), Duration::from_millis(4)]);
    assert_eq!(files, vec![Duration::from_millis(1), Duration::from_millis(2)]);
    let report = TraversalReport {
        workers: 2,
        directory_request_times: dirs,
        file_request_times: files,
        overall_time: Duration::from_millis(10),
    };
    assert_eq!(report.requests(), 4);
}

#[test]
fn drain_ends_only_when_closed_and_empty() {
    let mut s = DrainState::new();
    s.take_in(Arrival::Handles(1));
    assert_eq!(s.complete(Completion::Pending), PollAction::Wait);
    assert_eq!(s.complete(Completion::Value), PollAction::Yield);
    assert_eq!(s.complete(Completion::Empty), PollAction::Wait);
    s.take_in(Arrival::Closed);
    assert_eq!(s.complete(Completion::Empty), PollAction::End);
    assert_eq!(s.finished(), 1);
}

#[test]
fn binary_spawn_tree_of_depth_two_yields_seven() {
    // root, then two children, then four grandchildren
    let mut s = DrainState::new();
    let mut yielded = 0;
    let mut ended = false;
    let arrivals = [
        Arrival::Handles(1),
        Arrival::Handles(2),
        Arrival::Nothing,
        Arrival::Handles(4),
        Arrival::Nothing,
        Arrival::Closed,
    ];
    for a in arrivals {
        s.take_in(a);
        while s.live() > 0 {
            if s.complete(Completion::Value) == PollAction::Yield {
                yielded += 1;
            }
        }
        if s.complete(Completion::Empty) == PollAction::End {
            ended = true;
        }
    }
    assert!(ended);
    assert_eq!(yielded, 7);
    assert_eq!(s.finished(), 7);
}

#[test]
fn panic_is_resumed_and_counted() {
    let mut s = DrainState::new();
    s.take_in(Arrival::Handles(2));
    assert_eq!(s.complete(Completion::Panicked), PollAction::ResumePanic);
    assert_eq!(s.live(), 1);
    assert!(!s.is_closed());
}

#[test]
fn hrefs_resolve_like_url_joins() {
    let body = r#"<?xml version="1.0" encoding="utf-8"?>
<multistatus xmlns="DAV:">
  <response><href>/foo/bar/baz</href><propstat><prop><resourcetype/></prop><status>HTTP/1.1 200 OK</status></propstat></response>
  <response><href>https://www.example.com/foo/bar/qux</href><propstat><prop><resourcetype/></prop><status>HTTP/1.1 200 OK</status></propstat></response>
</multistatus>
"#;
    for base in ["https://www.example.com", "https://www.example.com/quux"] {
        let dl = directory_listing(body.as_bytes(), None, base, base).unwrap();
        assert_eq!(
            dl.files,
            vec![
                "https://www.example.com/foo/bar/baz".to_string(),
                "https://www.example.com/foo/bar/qux".to_string(),
            ]
        );
        assert!(dl.directories.is_empty());
    }
}

#[test]
fn propstat_children_in_any_order() {
    let orders = [
        "<prop><resourcetype><collection/></resourcetype></prop><status>HTTP/1.1 200 OK</status>",
        "<status>HTTP/1.1 200 OK</status><prop><resourcetype><collection/></resourcetype></prop>",
        "<responsedescription>d</responsedescription><status>HTTP/1.1 200 OK</status><prop><resourcetype><collection/></resourcetype></prop>",
    ];
    for inner in orders {
        let body = format!(
            "<multistatus xmlns=\"DAV:\"><response><propstat>{inner}</propstat><href>/x/</href></response></multistatus>"
        );
        let dl = dav_traverse::parse_multistatus(body.as_bytes(), None).unwrap();
        assert_eq!(dl.directories, vec!["/x/".to_string()]);
        assert!(dl.files.is_empty());
    }
}

#[test]
fn only_success_statuses_are_accepted() {
    assert!(dav_traverse::status_accepted(200));
    assert!(dav_traverse::status_accepted(207));
    assert!(dav_traverse::status_accepted(299));
    assert!(!dav_traverse::status_accepted(199));
    assert!(!dav_traverse::status_accepted(301));
    assert!(!dav_traverse::status_accepted(404));
}

#[test]
fn listing_spawns_directories_then_files_in_order() {
    let dl = DirectoryListing {
        directories: vec!["https://h/a/".to_string(), "https://h/b/".to_string()],
        files: vec!["https://h/c".to_string()],
    };
    assert_eq!(
        dav_traverse::child_tasks(&dl),
        vec![
            dav_traverse::ChildTask::Directory("https://h/a/".to_string()),
            dav_traverse::ChildTask::Directory("https://h/b/".to_string()),
            dav_traverse::ChildTask::File("https://h/c".to_string()),
        ]
    );
}
