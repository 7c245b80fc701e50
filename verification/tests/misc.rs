use truce::dirs::{home_dir_from, require_home_dir, HomeDirError};
use truce::ops::{copy_block, zero_block};
use truce::standalone::Defaults;

#[test]
fn home_dir_lookup_order() {
    assert_eq!(home_dir_from(Some("/u"), Some("/h"), true), Some("/u"));
    assert_eq!(home_dir_from(None, Some("/h"), true), Some("/h"));
    assert_eq!(home_dir_from::<&str>(None, None, true), None);
    assert_eq!(home_dir_from(Some("/u"), Some("/h"), false), Some("/h"));
    assert_eq!(home_dir_from(Some("/u"), None, false), None);
}

#[test]
fn require_home_dir_names_the_missing_variables() {
    assert_eq!(require_home_dir(Some(5), false), Ok(5));
    assert_eq!(require_home_dir::<u8>(None, true), Err(HomeDirError::NeitherUserprofileNorHome));
    assert_eq!(require_home_dir::<u8>(None, false), Err(HomeDirError::HomeUnset));
    assert_eq!(
        HomeDirError::NeitherUserprofileNorHome.message(),
        "can't determine home directory: neither USERPROFILE nor HOME is set"
    );
    assert_eq!(HomeDirError::HomeUnset.message(), "can't determine home directory: HOME is not set");
}

#[test]
fn copy_block_copies_the_common_length() {
    let mut out = [0.0_f32; 5];
    copy_block(&mut out, &[1.0, 2.0, 3.0]);
    assert_eq!(out, [1.0, 2.0, 3.0, 0.0, 0.0]);
    let mut short = [0.0_f64; 2];
    copy_block(&mut short, &[1.0, 2.0, 3.0]);
    assert_eq!(short, [1.0, 2.0]);
}

#[test]
fn zero_block_clears_everything() {
    let mut buf = [1.0_f32, -2.0, 3.5];
    zero_block(&mut buf, 0.0);
    assert_eq!(buf, [0.0; 3]);
}

#[test]
fn defaults_start_unset() {
    let d = Defaults::default();
    assert_eq!(d.input_enabled, None);
    assert_eq!(d.output_enabled, None);
}
