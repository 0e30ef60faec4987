use spawn_posix::split::{split_path, split_path_from};

fn s(path: &str) -> Vec<String> {
    let mut out = Vec::new();
    let mut sp = split_path(path.as_bytes());
    while let Some(piece) = sp.next() {
        out.push(String::from_utf8(piece.to_vec()).unwrap());
    }
    out
}

#[test]
fn test_split_path() {
    let empty = Vec::<String>::new();

    assert_eq!(s("a:b"), vec!["a", "b"]);
    assert_eq!(s("one:twothree"), vec!["one", "twothree"]);
    assert_eq!(s("a:"), vec!["a"]);
    assert_eq!(s(""), empty);
    assert_eq!(s(":"), empty);
    assert_eq!(s("::"), empty);
    assert_eq!(s(":::"), empty);
    assert_eq!(s("a::b"), vec!["a", "b"]);
    assert_eq!(s(":a::::b:"), vec!["a", "b"]);
}

#[test]
fn extra_colons_change_nothing() {
    let plain = s("/bin:/usr/bin:/usr/local/bin");
    assert_eq!(plain, vec!["/bin", "/usr/bin", "/usr/local/bin"]);
    assert_eq!(s(":/bin:/usr/bin:/usr/local/bin"), plain);
    assert_eq!(s("/bin:/usr/bin:/usr/local/bin:"), plain);
    assert_eq!(s("/bin:::/usr/bin::/usr/local/bin"), plain);
    assert_eq!(s("::/bin:/usr/bin:::/usr/local/bin:::"), plain);
}

#[test]
fn single_segment_without_colon() {
    assert_eq!(s("/usr/bin"), vec!["/usr/bin"]);
}

#[test]
fn exhausted_cursor_stays_exhausted() {
    let mut sp = split_path(b"a:b");
    assert_eq!(sp.next(), Some(&b"a"[..]));
    assert_eq!(sp.next(), Some(&b"b"[..]));
    assert_eq!(sp.next(), None);
    assert_eq!(sp.next(), None);
}

#[test]
fn cursor_resumes_where_it_stood() {
    let path = b"ab::cd:ef";
    let mut sp = split_path(path);
    assert_eq!(sp.position(), 0);
    assert_eq!(sp.next(), Some(&b"ab"[..]));
    let pos = sp.position();
    assert_eq!(pos, 3);
    let mut again = split_path_from(path, pos);
    assert_eq!(again.next(), Some(&b"cd"[..]));
    assert_eq!(again.next(), Some(&b"ef"[..]));
    assert_eq!(again.position(), path.len());
    assert_eq!(again.next(), None);
}

#[test]
fn segments_keep_every_byte_but_the_colon() {
    let mut sp = split_path(&[0u8, 255, 58, 47, 58, 58, 32]);
    assert_eq!(sp.next(), Some(&[0u8, 255][..]));
    assert_eq!(sp.next(), Some(&[47u8][..]));
    assert_eq!(sp.next(), Some(&[32u8][..]));
    assert_eq!(sp.next(), None);
}
