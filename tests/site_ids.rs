use poolshark::site_ids::{
    choose_crate_name, choose_out_dir, parse_line, scan_args, site_key, SiteIdError, SiteTable,
};

fn lines(text: &str) -> Vec<Vec<u8>> {
    text.lines().map(|l| l.as_bytes().to_vec()).collect()
}

#[test]
fn lines_parse() {
    assert_eq!(parse_line(b"a:b:1:2 = 17"), Ok(Some((b"a:b:1:2".to_vec(), 17))));
    assert_eq!(parse_line(b"  k =\t65535 "), Ok(Some((b"k".to_vec(), 65535))));
    assert_eq!(parse_line(b"no equals here"), Ok(None));
    assert_eq!(parse_line(b"k = 65536"), Err(SiteIdError::InvalidId));
    assert_eq!(parse_line(b"k = x1"), Err(SiteIdError::InvalidId));
    assert_eq!(parse_line(b"k = "), Err(SiteIdError::InvalidId));
    assert_eq!(parse_line(b"k = +7"), Ok(Some((b"k".to_vec(), 7))));
    assert_eq!(parse_line(b"k = +"), Err(SiteIdError::InvalidId));
    assert_eq!(parse_line(b"k = ++7"), Err(SiteIdError::InvalidId));
    assert_eq!(parse_line(b"k = 1 = 2"), Err(SiteIdError::InvalidId));
}

#[test]
fn existing_key_keeps_its_id() {
    let mut t = SiteTable::from_lines(&lines("a = 1\nb = 5\n")).unwrap();
    assert_eq!(t.assign(b"b".to_vec()), Ok((5, false)));
    assert_eq!(t.assign(b"c".to_vec()), Ok((6, true)));
    assert_eq!(t.assign(b"c".to_vec()), Ok((6, false)));
    assert_eq!(t.render(), b"a = 1\nb = 5\nc = 6\n".to_vec());
}

#[test]
fn render_reads_back() {
    let mut t = SiteTable::new();
    assert_eq!(t.assign(b"x:f.rs:3:9".to_vec()), Ok((1, true)));
    assert_eq!(t.assign(b"y:g.rs:10:1".to_vec()), Ok((2, true)));
    let text = String::from_utf8(t.render()).unwrap();
    assert_eq!(text, "x:f.rs:3:9 = 1\ny:g.rs:10:1 = 2\n");
    let mut u = SiteTable::from_lines(&lines(&text)).unwrap();
    assert_eq!(u.assign(b"y:g.rs:10:1".to_vec()), Ok((2, false)));
    assert_eq!(u.assign(b"z".to_vec()), Ok((3, true)));
}

#[test]
fn ids_exhausted() {
    let mut t = SiteTable::from_lines(&lines("a = 65535")).unwrap();
    assert_eq!(t.assign(b"b".to_vec()), Err(SiteIdError::Exhausted));
    assert_eq!(t.assign(b"a".to_vec()), Ok((65535, false)));
}

#[test]
fn malformed_table_refused() {
    assert_eq!(SiteTable::from_lines(&lines("a = 1\nb = nine\n")).err(), Some(SiteIdError::InvalidId));
}

#[test]
fn later_line_overrides() {
    let mut t = SiteTable::from_lines(&lines("a = 9\na = 2\n")).unwrap();
    assert_eq!(t.assign(b"a".to_vec()), Ok((2, false)));
    assert_eq!(t.assign(b"b".to_vec()), Ok((10, true)));
}

#[test]
fn keys_format() {
    assert_eq!(site_key(b"poolshark", b"src/lib.rs", 120, 7), b"poolshark:src/lib.rs:120:7".to_vec());
    assert_eq!(site_key(b"", b"", 0, 0), b"::0:0".to_vec());
}

#[test]
fn compiler_arguments() {
    let args: Vec<Vec<u8>> = ["rustc", "--crate-name", "app", "-L", "dependency=/t/deps", "--out-dir", "/t/out"]
        .iter()
        .map(|a| a.as_bytes().to_vec())
        .collect();
    let b = scan_args(&args).unwrap();
    assert_eq!(b.out_dir, Some(b"/t/out".to_vec()));
    assert_eq!(b.crate_name, Some(b"app".to_vec()));
    assert_eq!(b.dependency, Some(b"/t/deps".to_vec()));
    let bad: Vec<Vec<u8>> = vec![b"rustc".to_vec(), b"--out-dir".to_vec()];
    assert_eq!(scan_args(&bad).err(), Some(SiteIdError::MissingValue));
}

#[test]
fn directory_and_name_choices() {
    assert_eq!(choose_out_dir(Some(b"o".to_vec()), true, Some(b"d".to_vec()), true), b"o".to_vec());
    assert_eq!(choose_out_dir(Some(b"o".to_vec()), false, Some(b"d".to_vec()), true), b"d".to_vec());
    assert_eq!(choose_out_dir(None, false, None, false), b"target/debug/deps".to_vec());
    assert_eq!(choose_crate_name(Some(b"app".to_vec()), Some(b"env".to_vec())), Some(b"app".to_vec()));
    assert_eq!(choose_crate_name(Some(b"-x".to_vec()), Some(b"env".to_vec())), Some(b"env".to_vec()));
    assert_eq!(choose_crate_name(None, None), None);
}
