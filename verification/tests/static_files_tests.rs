use speed_rs::{HttpResponse, apply_static_file, static_file_target};

#[test]
fn target_under_prefix_maps_to_root() {
    assert_eq!(
        static_file_target("/public/x.txt", "public").unwrap(),
        "public/x.txt"
    );
    assert_eq!(
        static_file_target("/public/sub/y.html", "public").unwrap(),
        "public/sub/y.html"
    );
}

#[test]
fn target_outside_prefix_maps_to_nothing() {
    assert!(static_file_target("/other/x.txt", "public").is_none());
    assert!(static_file_target("x.txt", "public").is_none());
    assert!(static_file_target("/pub", "public").is_none());
}

#[test]
fn target_prefix_must_lead_the_path() {
    assert!(static_file_target("/a/public/x.txt", "public").is_none());
}

#[test]
fn target_escaping_the_root_maps_to_nothing() {
    assert!(static_file_target("/public/../etc/secret", "public").is_none());
    assert!(static_file_target("/public/a/../../etc/secret", "public").is_none());
    assert!(static_file_target("/public/..", "public").is_none());
}

#[test]
fn target_double_dot_inside_a_name_is_no_escape() {
    assert_eq!(
        static_file_target("/public/..hidden.txt", "public").unwrap(),
        "public/..hidden.txt"
    );
    assert_eq!(
        static_file_target("/public/a..b.txt", "public").unwrap(),
        "public/a..b.txt"
    );
}

#[test]
fn apply_sets_status_type_and_body() {
    let mut res = HttpResponse::new();
    apply_static_file(&mut res, "public/x.txt", b"file contents".to_vec());
    assert_eq!(res.status().0, 200);
    assert_eq!(res.status().1, "OK");
    assert_eq!(res.headers().get("Content-Type").unwrap(), "text/plain");
    assert_eq!(res.body(), b"file contents");
}

#[test]
fn apply_guesses_type_from_extension() {
    let mut res = HttpResponse::new();
    apply_static_file(&mut res, "public/page.html", Vec::new());
    assert_eq!(res.headers().get("Content-Type").unwrap(), "text/html");

    let mut res2 = HttpResponse::new();
    apply_static_file(&mut res2, "public/data.json", Vec::new());
    assert_eq!(res2.headers().get("Content-Type").unwrap(), "application/json");
}

#[test]
fn apply_defaults_to_text_plain_for_unknown_extension() {
    let mut res = HttpResponse::new();
    apply_static_file(&mut res, "public/strange.zzyyxx", Vec::new());
    assert_eq!(res.headers().get("Content-Type").unwrap(), "text/plain");
}
