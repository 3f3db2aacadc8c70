use firebase::firebase::Firebase;
use firebase::request::{Method, ReqErr, Request, Response};

#[test]
fn success_is_status_ok_only() {
    let ok = Response { body: String::new(), code: 200 };
    let missing = Response { body: String::new(), code: 404 };
    let failed = Response { body: String::new(), code: 500 };
    let created = Response { body: String::new(), code: 201 };
    assert!(ok.is_success());
    assert!(!missing.is_success());
    assert!(!failed.is_success());
    assert!(!created.is_success());
}

#[test]
fn write_without_body_fails_before_sending() {
    let r = Request::new("https://db.example.com/a.json".to_string(), Method::PUT, None);
    assert!(matches!(r, Err(ReqErr::MissingBody)));
    assert!(matches!(Request::new("u".to_string(), Method::POST, None), Err(ReqErr::MissingBody)));
    assert!(matches!(Request::new("u".to_string(), Method::PATCH, None), Err(ReqErr::MissingBody)));
}

#[test]
fn reads_and_deletes_carry_no_body() {
    let r = Request::new("u".to_string(), Method::GET, Some("x".to_string())).ok().unwrap();
    assert_eq!(r.body(), None);
    let d = Request::new("u".to_string(), Method::DELETE, None).ok().unwrap();
    assert_eq!(d.method(), Method::DELETE);
    assert_eq!(d.body(), None);
    let p = Request::new("u".to_string(), Method::PUT, Some("1".to_string())).ok().unwrap();
    assert_eq!(p.body(), Some("1"));
    assert_eq!(p.url(), "u");
}

#[test]
fn verbs_of_a_reference() {
    let f = Firebase::new("https://db.example.com").ok().unwrap().at("a").ok().unwrap();
    let url = "https://db.example.com/a.json";
    let g = f.get();
    assert_eq!((g.method(), g.url(), g.body()), (Method::GET, url, None));
    let s = f.set("1");
    assert_eq!((s.method(), s.url(), s.body()), (Method::PUT, url, Some("1")));
    let p = f.push("2");
    assert_eq!((p.method(), p.url(), p.body()), (Method::POST, url, Some("2")));
    let u = f.update("{}");
    assert_eq!((u.method(), u.url(), u.body()), (Method::PATCH, url, Some("{}")));
    let d = f.remove();
    assert_eq!((d.method(), d.url(), d.body()), (Method::DELETE, url, None));
    let q = f.order_by("k").get();
    assert_eq!(q.url(), "https://db.example.com/a.json?orderBy=k");
    assert_eq!(q.method(), Method::GET);
}

#[test]
fn response_from_utf8_bytes() {
    let r = Response::from_transport(200, "héllo".as_bytes().to_vec()).ok().unwrap();
    assert_eq!(r.body, "héllo");
    assert_eq!(r.code, 200);
    let empty = Response::from_transport(404, Vec::new()).ok().unwrap();
    assert_eq!(empty.body, "");
    assert_eq!(empty.code, 404);
}

#[test]
fn response_from_invalid_bytes() {
    let r = Response::from_transport(200, vec![0x66, 0xff, 0x6f]);
    assert!(matches!(r, Err(ReqErr::RespNotUTF8(_))));
}

#[test]
fn method_body_rule() {
    assert!(Method::PUT.needs_body());
    assert!(Method::POST.needs_body());
    assert!(Method::PATCH.needs_body());
    assert!(!Method::GET.needs_body());
    assert!(!Method::DELETE.needs_body());
}
