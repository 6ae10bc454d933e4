use cmsis_pack::error::ParseError;
use cmsis_pack::fetch::{redirect_step, resolve_location, FetchDecision};
use cmsis_pack::vidx::{flatten_pdscs, into_uri, parse_vidx, pidx_urls, PdscRef, Pidx, Vidx};

fn pdsc(name: &str) -> PdscRef {
    PdscRef {
        url: "http://x/".to_string(),
        vendor: "Acme".to_string(),
        name: name.to_string(),
        version: "1.0.0".to_string(),
    }
}

#[test]
fn vidx_document_parses() {
    let body = "<index>\
                  <vendor_index><pidx url=\"http://x/\" vendor=\"Acme\"/></vendor_index>\
                  <pdsc_index>\
                    <pdsc url=\"http://x/\" vendor=\"Acme\" name=\"P1\" version=\"1.0.0\"/>\
                  </pdsc_index>\
                </index>";
    let v = parse_vidx(body).unwrap();
    assert_eq!(v.vendor_index.len(), 1);
    assert_eq!(v.vendor_index[0].url, "http://x/");
    assert_eq!(v.vendor_index[0].vendor, "Acme");
    assert_eq!(v.pdsc_index.len(), 1);
    assert_eq!(v.pdsc_index[0].name, "P1");
    assert_eq!(v.pdsc_index[0].version, "1.0.0");
}

#[test]
fn vidx_skips_incomplete_entries() {
    let body = "<index>\
                  <pdsc_index>\
                    <pdsc url=\"u\" vendor=\"v\" name=\"P1\"/>\
                    <pdsc url=\"u\" vendor=\"v\" name=\"P2\" version=\"2\"/>\
                  </pdsc_index>\
                </index>";
    let v = parse_vidx(body).unwrap();
    assert_eq!(v.pdsc_index.len(), 1);
    assert_eq!(v.pdsc_index[0].name, "P2");
}

#[test]
fn vidx_rejects_wrong_root() {
    let body = "<catalog></catalog>";
    assert!(matches!(parse_vidx(body), Err(ParseError::Xml)));
}

#[test]
fn vidx_rejects_malformed_text() {
    assert!(matches!(parse_vidx("this is no xml"), Err(ParseError::Xml)));
}

#[test]
fn pidx_location() {
    let p = Pidx {
        url: "http://x/".to_string(),
        vendor: "Acme".to_string(),
    };
    assert_eq!(into_uri(&p), "http://x/Acme.pidx");
}

#[test]
fn pidx_urls_in_order() {
    let v = Vidx {
        vendor_index: vec![
            Pidx { url: "http://a/".to_string(), vendor: "A".to_string() },
            Pidx { url: "http://b/".to_string(), vendor: "B".to_string() },
        ],
        pdsc_index: Vec::new(),
    };
    assert_eq!(pidx_urls(&v), vec!["http://a/A.pidx", "http://b/B.pidx"]);
}

#[test]
fn flatten_emits_root_then_fetched() {
    let root = Vidx {
        vendor_index: vec![Pidx { url: "http://x/".to_string(), vendor: "Acme".to_string() }],
        pdsc_index: vec![pdsc("P1")],
    };
    let fetched_pidx = Vidx {
        vendor_index: Vec::new(),
        pdsc_index: vec![pdsc("P2"), pdsc("P3")],
    };
    let out = flatten_pdscs(root, vec![Some(fetched_pidx)]);
    let names: Vec<&str> = out.iter().map(|p| p.name.as_str()).collect();
    assert_eq!(names, vec!["P1", "P2", "P3"]);
}

#[test]
fn flatten_survives_a_failed_fetch() {
    let root = Vidx {
        vendor_index: vec![Pidx { url: "http://x/".to_string(), vendor: "Acme".to_string() }],
        pdsc_index: vec![pdsc("P1")],
    };
    let out = flatten_pdscs(root, vec![None]);
    let names: Vec<&str> = out.iter().map(|p| p.name.as_str()).collect();
    assert_eq!(names, vec!["P1"]);
}

#[test]
fn flatten_keeps_successes_beside_failures() {
    let root = Vidx { vendor_index: Vec::new(), pdsc_index: vec![pdsc("P1")] };
    let good = Vidx { vendor_index: Vec::new(), pdsc_index: vec![pdsc("P2")] };
    let also_good = Vidx { vendor_index: Vec::new(), pdsc_index: vec![pdsc("P3")] };
    let out = flatten_pdscs(root, vec![Some(good), None, Some(also_good)]);
    assert_eq!(out.len(), 3);
}

#[test]
fn resolve_absolute_location() {
    assert_eq!(
        resolve_location("http://a/b/c", "https://other/x"),
        "https://other/x"
    );
}

#[test]
fn resolve_root_relative_location() {
    assert_eq!(resolve_location("http://a/b/c", "/x/y"), "http://a/x/y");
}

#[test]
fn resolve_relative_location() {
    assert_eq!(resolve_location("http://a/b/c", "d"), "http://a/b/d");
}

#[test]
fn resolve_relative_against_bare_origin() {
    assert_eq!(resolve_location("http://a", "d"), "http://a/d");
}

#[test]
fn redirect_followed_within_depth() {
    let loc = "/next".to_string();
    match redirect_step(302, Some(&loc), "http://a/start", 0) {
        FetchDecision::Follow(u) => assert_eq!(u, "http://a/next"),
        other => panic!("expected to follow, got {:?}", other),
    }
}

#[test]
fn redirect_without_location_gives_up() {
    assert_eq!(redirect_step(301, None, "http://a", 0), FetchDecision::GiveUp);
}

#[test]
fn redirect_too_deep_gives_up() {
    let loc = "/next".to_string();
    assert_eq!(
        redirect_step(302, Some(&loc), "http://a", 10),
        FetchDecision::GiveUp
    );
}

#[test]
fn ordinary_status_delivers() {
    assert_eq!(redirect_step(200, None, "http://a", 0), FetchDecision::Deliver);
    assert_eq!(redirect_step(404, None, "http://a", 0), FetchDecision::Deliver);
}
