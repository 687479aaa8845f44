use dav_traverse::{parse_multistatus, DirectoryListing, FromXmlError};

fn listing(directories: &[&str], files: &[&str]) -> DirectoryListing {
    DirectoryListing {
        directories: directories.iter().map(|s| s.to_string()).collect(),
        files: files.iter().map(|s| s.to_string()).collect(),
    }
}

const ZARR: &str = "/zarrs/0d5/b9b/0d5b9be5-e626-4f6a-96da-b6b602954899/0395d0a3767524377b58da3945b3c063-48379--27115470.zarr/";

fn response_xml(href: &str, collection: bool) -> String {
    let rt = if collection {
        "<resourcetype><collection/></resourcetype>"
    } else {
        "<resourcetype/>"
    };
    format!(
        "  <response>\n    <href>{href}</href>\n    <propstat>\n      <prop>{rt}</prop>\n      <status>HTTP/1.1 200 OK</status>\n    </propstat>\n  </response>\n"
    )
}

#[test]
fn test01() {
    let dirs: Vec<String> = vec![
        ZARR.to_string(),
        format!("{ZARR}0/"),
        format!("{ZARR}1/"),
        format!("{ZARR}2/"),
        format!("{ZARR}3/"),
        format!("{ZARR}4/"),
        format!("{ZARR}5/"),
        format!("{ZARR}6/"),
    ];
    let files: Vec<String> = vec![
        format!("{ZARR}.zattrs"),
        format!("{ZARR}.zgroup"),
        format!("{ZARR}.zmetadata"),
        format!("{ZARR}info"),
    ];
    let mut doc = String::from("<?xml version=\"1.0\" encoding=\"utf-8\"?>\n<D:multistatus xmlns:D=\"DAV:\" xmlns=\"DAV:\">\n");
    for d in &dirs {
        doc.push_str(&response_xml(d, true));
    }
    for f in &files {
        doc.push_str(&response_xml(f, false));
    }
    doc.push_str("</D:multistatus>\n");
    let dl = parse_multistatus(doc.as_bytes(), None).unwrap();
    assert_eq!(dl, DirectoryListing { directories: dirs, files });
}

#[test]
fn test_reverse_order() {
    let src = r#"<?xml version="1.0" encoding="utf-8"?>
<multistatus xmlns="DAV:">
    <responsedescription>Your requested stats, sire.</responsedescription>
    <response>
        <responsedescription>These are the properties of /foo/bar/.</responsedescription>
        <propstat>
            <responsedescription>/foo/bar/ is a directory.</responsedescription>
            <status>HTTP/1.1 200 OK</status>
            <prop>
                <resourcetype>
                    <collection />
                </resourcetype>
            </prop>
        </propstat>
        <href>/foo/bar/</href>
    </response>
</multistatus>
"#;
    let dl = parse_multistatus(src.as_bytes(), None).unwrap();
    assert_eq!(dl, listing(&["/foo/bar/"], &[]));
}

#[test]
fn test_reverse_order_no_descriptions() {
    let src = r#"<?xml version="1.0" encoding="utf-8"?>
<multistatus xmlns="DAV:">
    <response>
        <propstat>
            <status>HTTP/1.1 200 OK</status>
            <prop>
                <resourcetype>
                    <collection />
                </resourcetype>
            </prop>
        </propstat>
        <href>/foo/bar/</href>
    </response>
</multistatus>
"#;
    let dl = parse_multistatus(src.as_bytes(), None).unwrap();
    assert_eq!(dl, listing(&["/foo/bar/"], &[]));
}

#[test]
fn test_no_href() {
    let src = r#"<?xml version="1.0" encoding="utf-8"?>
<multistatus xmlns="DAV:">
    <response>
        <propstat>
            <status>HTTP/1.1 200 OK</status>
            <prop>
                <resourcetype>
                    <collection />
                </resourcetype>
            </prop>
        </propstat>
    </response>
</multistatus>
"#;
    assert!(parse_multistatus(src.as_bytes(), None).is_err());
}

#[test]
fn test_no_propstat() {
    let src = r#"<?xml version="1.0" encoding="utf-8"?>
<multistatus xmlns="DAV:">
    <response>
        <href>/foo/bar/</href>
    </response>
</multistatus>
"#;
    assert!(parse_multistatus(src.as_bytes(), None).is_err());
}

#[test]
fn test_no_status() {
    let src = r#"<?xml version="1.0" encoding="utf-8"?>
<multistatus xmlns="DAV:">
    <response>
        <propstat>
            <prop>
                <resourcetype>
                    <collection />
                </resourcetype>
            </prop>
        </propstat>
        <href>/foo/bar/</href>
    </response>
</multistatus>
"#;
    assert!(parse_multistatus(src.as_bytes(), None).is_err());
}

#[test]
fn test_no_prop() {
    let src = r#"<?xml version="1.0" encoding="utf-8"?>
<multistatus xmlns="DAV:">
    <response>
        <propstat>
            <status>HTTP/1.1 200 OK</status>
        </propstat>
        <href>/foo/bar/</href>
    </response>
</multistatus>
"#;
    assert!(parse_multistatus(src.as_bytes(), None).is_err());
}

#[test]
fn test_no_resourcetype() {
    let src = r#"<?xml version="1.0" encoding="utf-8"?>
<multistatus xmlns="DAV:">
    <response>
        <propstat>
            <status>HTTP/1.1 200 OK</status>
            <prop/>
        </propstat>
        <href>/foo/bar/</href>
    </response>
</multistatus>
"#;
    assert!(parse_multistatus(src.as_bytes(), None).is_err());
}

#[test]
fn test_multi_href() {
    let src = r#"<?xml version="1.0" encoding="utf-8"?>
<multistatus xmlns="DAV:">
    <response>
        <href>/foo/bar</href>
        <propstat>
            <status>HTTP/1.1 200 OK</status>
            <prop>
                <resourcetype>
                    <collection />
                </resourcetype>
            </prop>
        </propstat>
        <href>/foo/bar/</href>
    </response>
</multistatus>
"#;
    assert!(parse_multistatus(src.as_bytes(), None).is_err());
}

#[test]
fn test_multi_status() {
    let src = r#"<?xml version="1.0" encoding="utf-8"?>
<multistatus xmlns="DAV:">
    <response>
        <propstat>
            <status>HTTP/1.1 200 OK</status>
            <status>All good</status>
            <prop>
                <resourcetype>
                    <collection />
                </resourcetype>
            </prop>
        </propstat>
        <href>/foo/bar/</href>
    </response>
</multistatus>
"#;
    assert!(parse_multistatus(src.as_bytes(), None).is_err());
}

#[test]
fn test_multi_resourcetype() {
    let src = r#"<?xml version="1.0" encoding="utf-8"?>
<multistatus xmlns="DAV:">
    <response>
        <propstat>
            <status>HTTP/1.1 200 OK</status>
            <prop>
                <resourcetype>
                    <collection />
                </resourcetype>
                <resourcetype>
                    <directory xmlns="https://www.example.com" />
                </resourcetype>
            </prop>
        </propstat>
        <href>/foo/bar/</href>
    </response>
</multistatus>
"#;
    assert!(parse_multistatus(src.as_bytes(), None).is_err());
}

#[test]
fn test_multi_prop() {
    let src = r#"<?xml version="1.0" encoding="utf-8"?>
<multistatus xmlns="DAV:">
    <response>
        <propstat>
            <status>HTTP/1.1 200 OK</status>
            <prop>
                <resourcetype>
                    <collection />
                </resourcetype>
            </prop>
            <prop>
                <resourcetype/>
            </prop>
        </propstat>
        <href>/foo/bar/</href>
    </response>
</multistatus>
"#;
    assert!(parse_multistatus(src.as_bytes(), None).is_err());
}

#[test]
fn test_multi_collection() {
    let src = r#"<?xml version="1.0" encoding="utf-8"?>
<multistatus xmlns="DAV:">
    <response>
        <propstat>
            <status>HTTP/1.1 200 OK</status>
            <prop>
                <resourcetype>
                    <collection />
                    <collection />
                </resourcetype>
            </prop>
        </propstat>
        <href>/foo/bar/</href>
    </response>
</multistatus>
"#;
    assert!(parse_multistatus(src.as_bytes(), None).is_err());
}

const IN_ORDER: &str = r#"<?xml version="1.0" encoding="utf-8"?>
<multistatus xmlns="DAV:">
    <response>
        <href>/foo/bar/</href>
        <propstat>
            <prop>
                <resourcetype>
                    <collection/>
                </resourcetype>
            </prop>
            <status>HTTP/1.1 200 OK</status>
        </propstat>
    </response>
</multistatus>
"#;

#[test]
fn collection_in_document_order() {
    let dl = parse_multistatus(IN_ORDER.as_bytes(), None).unwrap();
    assert_eq!(dl, listing(&["/foo/bar/"], &[]));
}

#[test]
fn empty_resourcetype_is_a_file() {
    let src = IN_ORDER.replace("<collection/>", "");
    let dl = parse_multistatus(src.as_bytes(), None).unwrap();
    assert_eq!(dl, listing(&[], &["/foo/bar/"]));
}

#[test]
fn foreign_annotation_between_href_and_propstat_is_ignored() {
    let src = IN_ORDER.replace(
        "</href>",
        "</href>\n        <ext:annotation xmlns:ext=\"urn:example:ext\">text</ext:annotation>",
    );
    let dl = parse_multistatus(src.as_bytes(), None).unwrap();
    assert_eq!(dl, parse_multistatus(IN_ORDER.as_bytes(), None).unwrap());
}

#[test]
fn nested_extensions_everywhere_are_ignored() {
    let ext = "<x:a xmlns:x=\"urn:x\"><x:b>one</x:b>two<x:c/></x:a>";
    let src = IN_ORDER
        .replace("<response>", &format!("{ext}<response>{ext}"))
        .replace("<propstat>", &format!("<propstat>{ext}"))
        .replace("</propstat>", &format!("{ext}</propstat>{ext}"));
    let dl = parse_multistatus(src.as_bytes(), None).unwrap();
    assert_eq!(dl, listing(&["/foo/bar/"], &[]));
}

#[test]
fn extension_inside_prop_is_ignored() {
    let src = IN_ORDER.replace("<prop>", "<prop><x:a xmlns:x=\"urn:x\"/>");
    assert_eq!(
        parse_multistatus(src.as_bytes(), None).unwrap(),
        parse_multistatus(IN_ORDER.as_bytes(), None).unwrap()
    );
}

#[test]
fn extensions_inside_resourcetype_are_ignored() {
    let src = IN_ORDER
        .replace(
            "<resourcetype>",
            "<resourcetype><C:calendar xmlns:C=\"urn:ietf:params:xml:ns:caldav\"/>",
        )
        .replace(
            "<collection/>",
            "<collection/><x:b xmlns:x=\"urn:x\">note</x:b>",
        )
        .replace("</resourcetype>", "</resourcetype><x:c xmlns:x=\"urn:x\"/>");
    assert_eq!(parse_multistatus(src.as_bytes(), None).unwrap(), listing(&["/foo/bar/"], &[]));
}

#[test]
fn extension_beside_empty_resourcetype_keeps_a_file() {
    let src = IN_ORDER.replace(
        "<collection/>",
        "<x:d xmlns:x=\"urn:x\"/>",
    );
    assert_eq!(parse_multistatus(src.as_bytes(), None).unwrap(), listing(&[], &["/foo/bar/"]));
}

#[test]
fn standard_element_inside_prop_is_refused() {
    let src = IN_ORDER.replace("<prop>", "<prop><getetag/>");
    assert_eq!(parse_multistatus(src.as_bytes(), None), Err(FromXmlError::Parse));
}

#[test]
fn extension_around_location_href_is_ignored() {
    let src = IN_ORDER.replace(
        "</href>",
        "</href><location><x:a xmlns:x=\"urn:x\"/><href>/elsewhere</href><x:b xmlns:x=\"urn:x\"/></location>",
    );
    assert_eq!(parse_multistatus(src.as_bytes(), None).unwrap(), listing(&["/foo/bar/"], &[]));
}

#[test]
fn not_found_status_names_the_href() {
    let src = IN_ORDER.replace("HTTP/1.1 200 OK", "HTTP/1.1 404 Not Found");
    assert_eq!(
        parse_multistatus(src.as_bytes(), None),
        Err(FromXmlError::BadStatus {
            href: "/foo/bar/".to_string(),
            status: "HTTP/1.1 404 Not Found".to_string(),
        })
    );
}

#[test]
fn first_bad_status_in_document_order_is_reported() {
    let src = r#"<?xml version="1.0" encoding="utf-8"?>
<multistatus xmlns="DAV:">
  <response><href>/a</href><propstat><prop><resourcetype/></prop><status>HTTP/1.1 200 OK</status></propstat></response>
  <response><href>/b</href><propstat><prop><resourcetype/></prop><status>HTTP/1.1 403 Forbidden</status></propstat></response>
  <response><href>/c</href><propstat><prop><resourcetype/></prop><status>HTTP/1.1 500 Oops</status></propstat></response>
</multistatus>
"#;
    assert_eq!(
        parse_multistatus(src.as_bytes(), None),
        Err(FromXmlError::BadStatus {
            href: "/b".to_string(),
            status: "HTTP/1.1 403 Forbidden".to_string(),
        })
    );
}

#[test]
fn two_propstats_are_refused() {
    let src = IN_ORDER.replace(
        "</propstat>",
        "</propstat><propstat><prop><resourcetype/></prop><status>HTTP/1.1 200 OK</status></propstat>",
    );
    assert_eq!(parse_multistatus(src.as_bytes(), None), Err(FromXmlError::Parse));
}

#[test]
fn location_and_descriptions_are_skipped() {
    let src = IN_ORDER.replace(
        "</href>",
        "</href><location><href>/elsewhere</href></location><responsedescription>moved</responsedescription>",
    );
    let dl = parse_multistatus(src.as_bytes(), None).unwrap();
    assert_eq!(dl, listing(&["/foo/bar/"], &[]));
}

#[test]
fn empty_multistatus_gives_empty_listing() {
    let src = "<?xml version=\"1.0\"?><multistatus xmlns=\"DAV:\"/>";
    assert_eq!(parse_multistatus(src.as_bytes(), None).unwrap(), listing(&[], &[]));
}

#[test]
fn files_and_directories_keep_server_order() {
    let src = r#"<?xml version="1.0" encoding="utf-8"?>
<multistatus xmlns="DAV:">
  <response><href>/f1</href><propstat><prop><resourcetype/></prop><status>HTTP/1.1 200 OK</status></propstat></response>
  <response><href>/d1/</href><propstat><prop><resourcetype><collection/></resourcetype></prop><status>HTTP/1.1 200 OK</status></propstat></response>
  <response><href>/f2</href><propstat><prop><resourcetype/></prop><status>HTTP/1.1 200 OK</status></propstat></response>
  <response><href>/d2/</href><propstat><prop><resourcetype><collection/></resourcetype></prop><status>HTTP/1.1 200 OK</status></propstat></response>
</multistatus>
"#;
    let dl = parse_multistatus(src.as_bytes(), None).unwrap();
    assert_eq!(dl, listing(&["/d1/", "/d2/"], &["/f1", "/f2"]));
}
