use spawn_posix::cvec::{os_to_cstring, CVec};
use spawn_posix::error::PosixError;

fn list(items: &[&str]) -> Vec<Vec<u8>> {
    items.iter().map(|x| x.as_bytes().to_vec()).collect()
}

#[test]
fn c_string_gets_its_terminator() {
    assert_eq!(os_to_cstring(b"ls"), Ok(vec![108u8, 115, 0]));
    assert_eq!(os_to_cstring(b""), Ok(vec![0u8]));
}

#[test]
fn c_string_refuses_a_nul() {
    assert_eq!(os_to_cstring(b"a\0b"), Err(PosixError::InvalidArgument));
    assert_eq!(os_to_cstring(b"\0"), Err(PosixError::InvalidArgument));
    assert_eq!(os_to_cstring(b"ab\0"), Err(PosixError::InvalidArgument));
}

#[test]
fn table_has_one_entry_more_than_the_list() {
    let v = CVec::new(&list(&["ls", "-l", "/tmp"])).unwrap();
    assert_eq!(v.len(), 3);
    let table = v.as_c_vec();
    assert_eq!(table.len(), 4);
    assert_eq!(table, &[Some(0), Some(1), Some(2), None][..]);
    assert_eq!(v.buffer(0), b"ls\0");
    assert_eq!(v.buffer(1), b"-l\0");
    assert_eq!(v.buffer(2), b"/tmp\0");
}

#[test]
fn each_entry_refers_to_its_own_string() {
    let input = list(&["alpha", "", "gamma"]);
    let v = CVec::new(&input).unwrap();
    let table = v.as_c_vec();
    for (k, item) in input.iter().enumerate() {
        let at = table[k].unwrap();
        let buf = v.buffer(at);
        assert_eq!(buf.len(), item.len() + 1);
        assert_eq!(&buf[..item.len()], &item[..]);
        assert_eq!(buf[item.len()], 0);
    }
    assert_eq!(table[input.len()], None);
}

#[test]
fn empty_list_has_only_the_null_entry() {
    let v = CVec::new(&[]).unwrap();
    assert_eq!(v.len(), 0);
    assert_eq!(v.as_c_vec(), &[None][..]);
}

#[test]
fn list_with_a_nul_is_refused() {
    let mut input = list(&["ok", "fine"]);
    input.push(vec![b'b', 0, b'd']);
    let r = CVec::new(&input);
    assert!(matches!(r, Err(PosixError::InvalidArgument)));
}

#[test]
fn nul_is_found_anywhere() {
    assert!(spawn_posix::cvec::contains_nul(b"\0ab"));
    assert!(spawn_posix::cvec::contains_nul(b"a\0b"));
    assert!(spawn_posix::cvec::contains_nul(b"ab\0"));
    assert!(!spawn_posix::cvec::contains_nul(b"ab"));
    assert!(!spawn_posix::cvec::contains_nul(b""));
}
