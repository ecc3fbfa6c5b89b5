use std::str::FromStr;

use file_transfer::routing::{
    admit_request, dispatch, has_valid_token, resolution_mode, upload_done_reply, Action, Admission,
    HeaderLine, RequestMethod, PLAIN_TEXT_TYPE,
};
use file_transfer::paths::{safe_path, PathFacts};
use tiny_http::Header;

fn line(text: &str) -> HeaderLine {
    let h = Header::from_str(text).unwrap();
    HeaderLine::new(h.field.as_str().as_str(), h.value.as_str())
}

#[test]
fn token_validation_accepts_only_matching_header() {
    let matching = vec![line("X-Token: secret")];
    let wrong = vec![line("X-Token: nope")];

    assert!(has_valid_token(&matching, "secret"));
    assert!(!has_valid_token(&wrong, "secret"));
    assert!(!has_valid_token(&[], "secret"));
}

#[test]
fn token_field_name_ignores_case_but_value_does_not() {
    assert!(has_valid_token(&[line("x-token: secret")], "secret"));
    assert!(has_valid_token(&[line("X-TOKEN: secret")], "secret"));
    assert!(!has_valid_token(&[line("X-Token: Secret")], "secret"));
    assert!(!has_valid_token(&[line("X-Tokens: secret")], "secret"));
    assert!(has_valid_token(&[line("Accept: */*"), line("X-Token: secret")], "secret"));
}

#[test]
fn read_only_mode_rejects_put_uploads() {
    match admit_request(&None, &[], true, RequestMethod::Put) {
        Admission::Reject(reply) => {
            assert_eq!(reply.status, 403);
            assert_eq!(reply.body, "Read-only mode");
        }
        Admission::Proceed => panic!("upload admitted in read-only mode"),
    }
    assert!(matches!(admit_request(&None, &[], true, RequestMethod::Get), Admission::Proceed));
}

#[test]
fn missing_token_is_unauthorized_before_read_only() {
    let token = Some("secret".to_string());
    match admit_request(&token, &[], true, RequestMethod::Put) {
        Admission::Reject(reply) => {
            assert_eq!(reply.status, 401);
            assert_eq!(reply.body, "Unauthorized");
        }
        Admission::Proceed => panic!("request without token admitted"),
    }
    let headers = vec![line("X-Token: secret")];
    assert!(matches!(admit_request(&token, &headers, false, RequestMethod::Put), Admission::Proceed));
}

fn reply_of(a: Action) -> (u16, String) {
    match a {
        Action::Respond(r) => (r.status, r.body),
        _ => panic!("expected a reply"),
    }
}

#[test]
fn get_dispatch_follows_the_trailing_slash() {
    let p = Some("/srv/docs".to_string());
    assert!(matches!(dispatch(RequestMethod::Get, "/docs/", p.clone(), true, false), Action::ListDirectory(d) if d == "/srv/docs"));
    assert!(matches!(dispatch(RequestMethod::Get, "/docs", p.clone(), true, false), Action::ZipDirectory(d) if d == "/srv/docs"));
    assert!(matches!(dispatch(RequestMethod::Get, "/docs", p.clone(), false, true), Action::DownloadFile(d) if d == "/srv/docs"));
    assert_eq!(reply_of(dispatch(RequestMethod::Get, "/docs/", p.clone(), false, true)), (404, "Not found".to_string()));
    assert_eq!(reply_of(dispatch(RequestMethod::Get, "/docs", p, false, false)), (404, "Not found".to_string()));
    assert_eq!(reply_of(dispatch(RequestMethod::Get, "/a/../b", None, false, false)), (400, "Invalid path".to_string()));
}

#[test]
fn put_and_other_methods_dispatch() {
    assert!(matches!(dispatch(RequestMethod::Put, "/f.txt", Some("/srv/f.txt".to_string()), false, false), Action::Upload(p) if p == "/srv/f.txt"));
    assert_eq!(reply_of(dispatch(RequestMethod::Put, "/../f", None, false, false)), (400, "Invalid path".to_string()));
    assert_eq!(reply_of(dispatch(RequestMethod::Other, "/", Some("/srv".to_string()), true, false)), (404, "Not found".to_string()));
    assert_eq!(resolution_mode(RequestMethod::Get), Some(false));
    assert_eq!(resolution_mode(RequestMethod::Put), Some(true));
    assert_eq!(resolution_mode(RequestMethod::Other), None);
}

#[test]
fn upload_reply_is_ok() {
    let r = upload_done_reply();
    assert_eq!((r.status, r.body.as_str()), (200, "OK"));
    assert_eq!(PLAIN_TEXT_TYPE, "text/plain; charset=utf-8");
}

#[test]
fn get_of_root_lists_the_shared_directory() {
    let facts = PathFacts {
        exists: false,
        leaf_is_symlink: false,
        canonical: None,
        canonical_parent: None,
        link_target_dir: None,
    };
    let resolved = safe_path("/srv/share", "/", false, facts);
    assert!(matches!(dispatch(RequestMethod::Get, "/", resolved, true, false), Action::ListDirectory(p) if p == "/srv/share"));
}
