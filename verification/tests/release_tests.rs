use ytdlp_gui::release::{
    classify_answer, pkgbuild_field, source_hash_hex, update_pkgbuild, ConfirmAnswer,
};

#[test]
fn sha256_hex_of_known_input() {
    // the well-known SHA-256 test vector
    let hex = source_hash_hex(b"abc");
    assert_eq!(
        hex,
        "ba7816bf8f01cfea414140de5dae2223b00361a396177a9cb410ff61f20015ad"
    );
    assert_eq!(hex.len(), 64);
}

#[test]
fn sha256_hex_of_empty_input() {
    let hex = source_hash_hex(b"");
    assert_eq!(
        hex,
        "e3b0c44298fc1c149afbf4c8996fb92427ae41e4649b934ca495991b7852b855"
    );
}

#[test]
fn pkgbuild_rewrite() {
    let before = "pkgname=tool\npkgver=1.0.0\npkgrel=2\nsha256sums=(\"old\")\nurl=x\n";
    let after = update_pkgbuild(before, "1.1.0", "cafe", Some(1));
    assert_eq!(
        after,
        "pkgname=tool\npkgver=1.1.0\npkgrel=1\nsha256sums=(\"cafe\")\nurl=x\n"
    );
}

#[test]
fn pkgbuild_rewrite_keeps_rel_without_request() {
    let before = "pkgver=1.0.0\npkgrel=2\n";
    let after = update_pkgbuild(before, "2.0.0", "beef", None);
    assert_eq!(after, "pkgver=2.0.0\npkgrel=2\n");
}

#[test]
fn pkgbuild_field_reads_first_match() {
    let text = "pkgname=tool\npkgver=1.0.0\npkgrel=2\n";
    assert_eq!(pkgbuild_field(text, "pkgname"), Some(String::from("tool")));
    assert_eq!(pkgbuild_field(text, "pkgver"), Some(String::from("1.0.0")));
    assert_eq!(pkgbuild_field(text, "pkgrel"), Some(String::from("2")));
    assert_eq!(pkgbuild_field(text, "missing"), None);
}

#[test]
fn confirm_answers() {
    assert!(matches!(classify_answer("\n"), ConfirmAnswer::Proceed));
    assert!(matches!(classify_answer("y\n"), ConfirmAnswer::Proceed));
    assert!(matches!(classify_answer("Y\n"), ConfirmAnswer::Proceed));
    assert!(matches!(classify_answer("n\n"), ConfirmAnswer::Abort));
    assert!(matches!(classify_answer("N\n"), ConfirmAnswer::Abort));
    assert!(matches!(classify_answer("maybe\n"), ConfirmAnswer::Invalid));
}
