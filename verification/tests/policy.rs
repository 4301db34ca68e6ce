use paperdoll_tar::model::LayerKind;
use paperdoll_tar::policy::{choose_extension, image_file_name_exec, u32_to_dec};

#[test]
fn empty_path_defaults_to_png() {
    assert_eq!(choose_extension(&Vec::new()), b"png".to_vec());
}

#[test]
fn plain_extension_is_kept() {
    assert_eq!(choose_extension(&b"layer.jpg".to_vec()), b"jpg".to_vec());
    assert_eq!(choose_extension(&b"a/b/c.bmp".to_vec()), b"bmp".to_vec());
    assert_eq!(choose_extension(&b"archive.tar.gz".to_vec()), b"gz".to_vec());
}

#[test]
fn webp_falls_back_to_png() {
    assert_eq!(choose_extension(&b"layer.webp".to_vec()), b"png".to_vec());
    assert_eq!(choose_extension(&b"dir/sub/pic.webp".to_vec()), b"png".to_vec());
}

#[test]
fn pathological_paths_default_to_png() {
    assert_eq!(choose_extension(&b"noextension".to_vec()), b"png".to_vec());
    assert_eq!(choose_extension(&b".hidden".to_vec()), b"png".to_vec());
    assert_eq!(choose_extension(&b"dir.v2/file".to_vec()), b"png".to_vec());
    assert_eq!(choose_extension(&b"dir/".to_vec()), b"png".to_vec());
}

#[test]
fn trailing_dot_gives_empty_extension() {
    assert_eq!(choose_extension(&b"name.".to_vec()), b"".to_vec());
}

#[test]
fn decimal_rendering() {
    assert_eq!(u32_to_dec(0), b"0".to_vec());
    assert_eq!(u32_to_dec(7), b"7".to_vec());
    assert_eq!(u32_to_dec(10), b"10".to_vec());
    assert_eq!(u32_to_dec(4294967295), b"4294967295".to_vec());
}

#[test]
fn synthesized_names() {
    assert_eq!(
        image_file_name_exec(LayerKind::Doll, 7, &b"png".to_vec()),
        b"doll_7.png".to_vec()
    );
    assert_eq!(
        image_file_name_exec(LayerKind::Fragment, 4294967295, &b"jpg".to_vec()),
        b"fragment_4294967295.jpg".to_vec()
    );
}
