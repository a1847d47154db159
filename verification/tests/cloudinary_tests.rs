use phupload::cloudinary::Cloudinary;

#[test]
fn public_id_dashes_spaces() {
    assert_eq!(Cloudinary::public_id("hello world"), "hello-world");
    assert_eq!(Cloudinary::public_id("nospace"), "nospace");
    assert_eq!(Cloudinary::public_id(""), "");
}

#[test]
fn signature_is_forty_lowercase_hex_digits() {
    let s = Cloudinary::signature("pid", "a,b", 1234567890, "secret");
    assert_eq!(s.len(), 40);
    assert!(s.chars().all(|c| c.is_ascii_hexdigit() && !c.is_ascii_uppercase()));
}

#[test]
fn signature_depends_on_every_input() {
    let base = Cloudinary::signature("pid", "a,b", 1, "secret");
    assert_eq!(base, Cloudinary::signature("pid", "a,b", 1, "secret"));
    assert_ne!(base, Cloudinary::signature("pid2", "a,b", 1, "secret"));
    assert_ne!(base, Cloudinary::signature("pid", "a,c", 1, "secret"));
    assert_ne!(base, Cloudinary::signature("pid", "a,b", 2, "secret"));
    assert_ne!(base, Cloudinary::signature("pid", "a,b", 1, "secret2"));
}
