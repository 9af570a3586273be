use strict_weave::analysis::global::fingerprint;
use strict_weave::text::{lines, trimmed, words};

#[test]
fn lines_follow_str_lines() {
    assert_eq!(lines("a\r\nb\n"), vec!["a", "b"]);
    assert_eq!(lines("a\n\nb"), vec!["a", "", "b"]);
    assert_eq!(lines(""), Vec::<String>::new());
    assert_eq!(lines("x\r"), vec!["x\r"]);
}

#[test]
fn words_and_trimming() {
    assert_eq!(words("  a\tb  c\n"), vec!["a", "b", "c"]);
    assert_eq!(trimmed("\t a b \n"), "a b");
    assert_eq!(trimmed("   "), "");
}

#[test]
fn fingerprints_are_sha256_hex() {
    assert_eq!(
        fingerprint(""),
        "e3b0c44298fc1c149afbf4c8996fb92427ae41e4649b934ca495991b7852b855"
    );
    assert_eq!(
        fingerprint("abc"),
        "ba7816bf8f01cfea414140de5dae2223b00361a396177a9cb410ff61f20015ad"
    );
}
