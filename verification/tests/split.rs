use rsync_backup::split::{chars_of, split_after, split_bytes, split_text};

#[test]
fn bytes_are_split_at_every_separator() {
    assert_eq!(split_bytes(b"a,b,c", b','), vec![b"a".to_vec(), b"b".to_vec(), b"c".to_vec()]);
    assert_eq!(split_bytes(b"abc", b','), vec![b"abc".to_vec()]);
    assert_eq!(split_bytes(b"", b','), vec![Vec::<u8>::new()]);
    assert_eq!(split_bytes(b",", b','), vec![Vec::<u8>::new(), Vec::new()]);
    assert_eq!(
        split_bytes(b",a,,b,", b','),
        vec![Vec::new(), b"a".to_vec(), Vec::new(), b"b".to_vec(), Vec::new()]
    );
}

#[test]
fn split_after_puts_the_head_before_the_first_piece() {
    assert_eq!(
        split_after(b"he".to_vec(), b"ad;x;", b';'),
        vec![b"head".to_vec(), b"x".to_vec(), Vec::new()]
    );
    assert_eq!(split_after(b"he".to_vec(), b"", b';'), vec![b"he".to_vec()]);
    assert_eq!(split_after(Vec::new(), b";", b';'), vec![Vec::<u8>::new(), Vec::new()]);
}

#[test]
fn text_is_split_at_every_separator() {
    assert_eq!(split_text("a b  c", ' '), vec!["a", "b", "", "c"]);
    assert_eq!(split_text("", ' '), vec![""]);
    assert_eq!(split_text(" ", ' '), vec!["", ""]);
    assert_eq!(split_text("*.tmp,*.bak", ','), vec!["*.tmp", "*.bak"]);
    assert_eq!(split_text("no separator", ','), vec!["no separator"]);
}

#[test]
fn text_is_split_by_characters_not_bytes() {
    assert_eq!(
        split_text("\u{e9}t\u{e9},\u{1f600},z", ','),
        vec!["\u{e9}t\u{e9}", "\u{1f600}", "z"]
    );
    assert_eq!(split_text("a\u{2713}b\u{2713}", '\u{2713}'), vec!["a", "b", ""]);
}

#[test]
fn text_is_split_as_the_standard_library_splits_it() {
    for text in ["", ",", "a,b", ",,", "a,,b,", "x", "\u{e9},\u{e9}"] {
        let expected: Vec<String> = text.split(',').map(|p| p.to_string()).collect();
        assert_eq!(split_text(text, ','), expected);
    }
}

#[test]
fn joining_the_pieces_gives_the_text_back() {
    for text in ["", " ", "a b", "  a  b  ", "-v --delete  --dry-run"] {
        let pieces = split_text(text, ' ');
        assert!(pieces.iter().all(|p| !p.contains(' ')));
        assert_eq!(pieces.join(" "), text);
    }
}

#[test]
fn chars_of_lists_the_characters() {
    assert_eq!(chars_of("a\u{e9}\u{1f600}"), vec!['a', '\u{e9}', '\u{1f600}']);
    assert_eq!(chars_of(""), Vec::<char>::new());
}
