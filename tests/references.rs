use firebase::firebase::{FbOps, Firebase, Param, ParseError};
use std::collections::HashMap;
use url::Url;

fn assert_queries_eq(a: &Url, b: &Url) {
    let param_a = a.query_pairs().collect::<HashMap<_, _>>();
    let param_b = b.query_pairs().collect::<HashMap<_, _>>();

    assert_eq!(param_a, param_b);
}

#[test]
fn builds_auth_url() {
    let f = Firebase::authed("https://db.rifebass.com/", "deadbeaf").ok().unwrap();
    assert_eq!(f.get_url(), "https://db.rifebass.com/?auth=deadbeaf");
}

#[test]
fn extends_auth_url() {
    let f = Firebase::authed("https://db.rifebass.com/", "deadbeaf").ok().unwrap();
    let f = f.at("/futurama/SpacePilot3000").ok().unwrap();
    let url_now = "https://db.rifebass.com/futurama/SpacePilot3000.json?auth=deadbeaf";
    assert_eq!(url_now, f.get_url());
}

#[test]
fn double_extends_url() {
    let f = Firebase::authed("https://db.rifebass.com", "deadbeaf").ok().unwrap();
    let f = f.at("/futurama.json").ok().unwrap();
    let f = f.at("SpacePilot3000").ok().unwrap();
    let url_now = "https://db.rifebass.com/futurama/SpacePilot3000.json?auth=deadbeaf";
    assert_eq!(url_now, f.get_url());
}

#[test]
fn handle_slashes() {
    let f = Firebase::authed("https://db.rifebass.com", "deadbeaf").ok().unwrap();
    let f = f.at("futurama.json").ok().unwrap();
    let f = f.at("SpacePilot3000.json").ok().unwrap();
    let url_now = "https://db.rifebass.com/futurama/SpacePilot3000.json?auth=deadbeaf";
    assert_eq!(url_now, f.get_url());

    let f = Firebase::authed("https://db.rifebass.com/", "deadbeaf").ok().unwrap();
    let f = f.at("/futurama/").ok().unwrap();
    let f = f.at("/SpacePilot3000/").ok().unwrap();
    let url_now = "https://db.rifebass.com/futurama/SpacePilot3000.json?auth=deadbeaf";
    assert_eq!(url_now, f.get_url());
}

#[test]
fn handle_json_suffix() {
    let f = Firebase::new("https://db.rifebass.com").ok().unwrap();
    let f = f.at("0.json").ok().unwrap().at("1.json").ok().unwrap()
             .at("1.json").ok().unwrap().at("8.json").ok().unwrap()
             .at("9.json").ok().unwrap().at("9.json").ok().unwrap()
             .at("9.json").ok().unwrap().at("8.json").ok().unwrap()
             .at("8.json").ok().unwrap().at("1.json").ok().unwrap()
             .at("9.json").ok().unwrap().at("9.json").ok().unwrap()
             .at("9.json").ok().unwrap().at("1.json").ok().unwrap()
             .at("1.json").ok().unwrap().at("9.json").ok().unwrap()
             .at("7.json").ok().unwrap().at("2.json").ok().unwrap()
             .at("5.json").ok().unwrap().at("3.json").ok().unwrap();
    let url_now = "https://db.rifebass.com/0/1/1/8/9/9/9/8/8/1/9/9/9/1/1/9/7/2/5/3.json";
    assert_eq!(url_now, f.get_url());
}

#[test]
fn test_ops() {
    let f = Firebase::new("https://db.fe/").ok().expect("url err");
    let f = f.at("lol").ok().expect("extend err");
    let req = f.end_at(13).limit_to_first(4).equal_to(8).shallow(false);
    let correct = Url::parse("https://db.fe//lol.json?limitToFirst=4&endAt=13&equalTo=8&shallow=false").ok().unwrap();
    let generated = Url::parse(&req.get_url()).ok().unwrap();

    assert_queries_eq(&correct, &generated);
}

#[test]
fn test_auth_ops() {
    let f = Firebase::authed("https://db.fe/", "key").ok().expect("url err").at("lol").ok().unwrap();
    let req = f.order_by("pts").limit_to_last(5).start_at(8);

    let correct = Url::parse("https://db.fe/lol.json?auth=key&orderBy=pts&limitToLast=5&startAt=8").ok().unwrap();
    let generated = Url::parse(&req.get_url()).ok().unwrap();

    assert_queries_eq(&correct, &generated);
}

#[test]
fn test_ops_ctor() {
    let fb = Firebase::new("https://db.fb.com").ok().unwrap();
    let query = fb.ops(&FbOps {
        order_by:       Some("Hello World"),
        limit_to_first: Some(5),
        end_at:         Some(7),
        equal_to:       Some(3),
        shallow:        Some(true),
        format:         Some(true),
        .. FbOps::default()
    });

    let corr = Url::parse("https://db.fb.com/?limitToFirst=5&orderBy=Hello+World&equalTo=3&format=export&shallow=true&endAt=7").ok().unwrap();
    let this = Url::parse(&query.get_url()).ok().unwrap();
    assert_queries_eq(&corr, &this);
}

#[test]
fn auth_path_scenario() {
    let f = Firebase::authed("https://db.example.com", "deadbeaf").ok().unwrap();
    let f = f.at("/a/SpacePilot3000").ok().unwrap();
    let parsed = Url::parse(&f.get_url()).ok().unwrap();
    assert_eq!(parsed.path(), "/a/SpacePilot3000.json");
    assert_eq!(f.get_url(), "https://db.example.com/a/SpacePilot3000.json?auth=deadbeaf");
}

#[test]
fn plain_http_root_is_refused() {
    assert!(matches!(Firebase::new("http://db.example.com"), Err(ParseError::UrlIsNotHTTPS)));
    assert!(matches!(Firebase::authed("http://db.example.com", "deadbeaf"), Err(ParseError::UrlIsNotHTTPS)));
}

#[test]
fn address_without_path_is_refused() {
    assert!(matches!(Firebase::new("mailto:someone@example.com"), Err(ParseError::UrlHasNoPath)));
    assert!(matches!(Firebase::authed("mailto:someone@example.com", "k"), Err(ParseError::UrlIsNotHTTPS)));
}

#[test]
fn malformed_address_is_refused() {
    assert!(matches!(Firebase::new("not an address"), Err(ParseError::Parser(_))));
    assert!(matches!(Firebase::authed("", "k"), Err(ParseError::Parser(_))));
}

#[test]
fn twenty_alternating_steps() {
    let mut f = Firebase::new("https://db.example.com").ok().unwrap();
    let mut expected = String::from("https://db.example.com");
    for i in 0..20 {
        let step = if i % 2 == 0 { "0.json" } else { "1.json" };
        f = f.at(step).ok().unwrap();
        expected.push_str(if i % 2 == 0 { "/0" } else { "/1" });
    }
    expected.push_str(".json");
    assert_eq!(f.get_url(), expected);
    assert!(!f.get_url().contains(".json/"));
    assert!(!f.get_url()["https://".len()..].contains("//"));
}

#[test]
fn extending_twice_equals_extending_by_joined_path() {
    let a = Firebase::authed("https://db.example.com/root.json", "tok").ok().unwrap();
    let two = a.at("/x/y/").ok().unwrap().at("z/w").ok().unwrap();
    let one = a.at("/x/y//z/w").ok().unwrap();
    assert_eq!(two.get_url(), one.get_url());
    assert_eq!(one.get_url(), "https://db.example.com/root/x/y/z/w.json?auth=tok");
}

#[test]
fn derived_references_keep_auth() {
    let r = Firebase::authed("https://db.example.com", "secret").ok().unwrap();
    let d = r.at("a").ok().unwrap().at("b/c").ok().unwrap();
    assert_eq!(d.get_url(), "https://db.example.com/a/b/c.json?auth=secret");
    let p = d.order_by("k").limit_to_first(2);
    let parsed = Url::parse(&p.get_url()).ok().unwrap();
    let pairs: Vec<(String, String)> = parsed.query_pairs().map(|(k, v)| (k.into_owned(), v.into_owned())).collect();
    assert!(pairs.contains(&("auth".to_string(), "secret".to_string())));
}

#[test]
fn same_parameter_twice_keeps_last() {
    let r = Firebase::new("https://db.example.com/episodes").ok().unwrap();
    let p = r.start_at(10).start_at(0);
    assert_eq!(p.get_url(), "https://db.example.com/episodes?startAt=0");
    let q = r.order_by("a").limit_to_first(3).order_by("b");
    assert_eq!(q.get_url(), "https://db.example.com/episodes?limitToFirst=3&orderBy=b");
}

#[test]
fn parameters_leave_reference_unchanged() {
    let r = Firebase::authed("https://db.example.com", "t").ok().unwrap();
    let before = r.get_url();
    let _child = r.at("x").ok().unwrap();
    let _p = r.order_by("k").shallow(true).format();
    assert_eq!(r.get_url(), before);
}

#[test]
fn replaces_auth_of_the_address() {
    let f = Firebase::authed("https://db.example.com/?auth=old&x=1", "new").ok().unwrap();
    assert_eq!(f.get_url(), "https://db.example.com/?x=1&auth=new");
}

#[test]
fn root_query_is_kept_by_at() {
    let f = Firebase::new("https://db.example.com/base?x=1").ok().unwrap();
    let g = f.at("y").ok().unwrap();
    assert_eq!(g.get_url(), "https://db.example.com/base/y.json?x=1");
}

#[test]
fn empty_and_suffix_only_paths() {
    let f = Firebase::new("https://db.example.com/a").ok().unwrap();
    assert_eq!(f.at("").ok().unwrap().get_url(), "https://db.example.com/a/.json");
    assert_eq!(f.at(".json").ok().unwrap().get_url(), "https://db.example.com/a/.json");
    assert_eq!(f.at("///").ok().unwrap().get_url(), "https://db.example.com/a/.json");
}

#[test]
fn dot_pieces_are_skipped() {
    let f = Firebase::new("https://db.example.com").ok().unwrap();
    assert_eq!(f.at("a/./../b").ok().unwrap().get_url(), "https://db.example.com/a/b.json");
}

#[test]
fn segments_are_percent_encoded() {
    let f = Firebase::new("https://db.example.com").ok().unwrap();
    assert_eq!(f.at("my docs/50%").ok().unwrap().get_url(), "https://db.example.com/my%20docs/50%25.json");
}

#[test]
fn parameter_values_are_form_encoded() {
    let f = Firebase::new("https://db.example.com").ok().unwrap();
    assert_eq!(f.order_by("Hello World").get_url(), "https://db.example.com/?orderBy=Hello+World");
    assert_eq!(f.order_by("\"title\"").get_url(), "https://db.example.com/?orderBy=%22title%22");
}

#[test]
fn numbers_and_flags_as_text() {
    let f = Firebase::new("https://db.example.com").ok().unwrap();
    assert_eq!(f.limit_to_first(4294967295).get_url(), "https://db.example.com/?limitToFirst=4294967295");
    assert_eq!(f.limit_to_last(0).get_url(), "https://db.example.com/?limitToLast=0");
    assert_eq!(f.end_at(120).get_url(), "https://db.example.com/?endAt=120");
    assert_eq!(f.equal_to(7).get_url(), "https://db.example.com/?equalTo=7");
    assert_eq!(f.shallow(true).get_url(), "https://db.example.com/?shallow=true");
    assert_eq!(f.shallow(false).get_url(), "https://db.example.com/?shallow=false");
    assert_eq!(f.format().get_url(), "https://db.example.com/?format=export");
}

#[test]
fn options_skip_absent_fields_and_false_format() {
    let f = Firebase::new("https://db.example.com").ok().unwrap();
    let p = f.ops(&FbOps { limit_to_last: Some(2), start_at: Some(1), format: Some(false), ..FbOps::default() });
    assert_eq!(p.get_url(), "https://db.example.com/?limitToLast=2&startAt=1");
    let none = f.ops(&FbOps::default());
    assert_eq!(none.get_url(), "https://db.example.com/");
}

#[test]
fn dot_then_path_equals_joined_path() {
    let root = Firebase::new("https://db.example.com").ok().unwrap();
    let two = root.at("..").ok().unwrap().at("b").ok().unwrap();
    let one = root.at("../b").ok().unwrap();
    assert_eq!(two.get_url(), one.get_url());
    assert_eq!(one.get_url(), "https://db.example.com/b.json");

    let x = Firebase::new("https://db.example.com/x").ok().unwrap();
    assert_eq!(x.at("..").ok().unwrap().get_url(), "https://db.example.com/x/...json");
    assert_eq!(x.at("..").ok().unwrap().at("b").ok().unwrap().get_url(), "https://db.example.com/x/b.json");
    assert_eq!(x.at("../b").ok().unwrap().get_url(), "https://db.example.com/x/b.json");
    assert_eq!(x.at(".").ok().unwrap().at("b").ok().unwrap().get_url(), "https://db.example.com/x/b.json");
    assert_eq!(x.at("./b").ok().unwrap().get_url(), "https://db.example.com/x/b.json");
}

#[test]
fn segments_are_written_as_url_pushes_them() {
    let f = Firebase::new("https://db.example.com").ok().unwrap();
    assert_eq!(f.at(" a ").ok().unwrap().get_url(), "https://db.example.com/a%20.json");
    assert_eq!(f.at("a\\b").ok().unwrap().get_url(), "https://db.example.com/a%5Cb.json");
    assert_eq!(f.at("caf\u{e9}").ok().unwrap().get_url(), "https://db.example.com/caf%C3%A9.json");
}

#[test]
fn add_param_overwrites_key() {
    let r = Firebase::new("https://db.example.com").ok().unwrap();
    let p = r.equal_to(1).add_param(Param::EqualTo, "2".to_string()).add_param(Param::OrderBy, "k".to_string());
    assert_eq!(p.get_url(), "https://db.example.com/?equalTo=2&orderBy=k");
}
