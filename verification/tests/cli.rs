use pwr_viewgen::cli::is_png_path;
use pwr_viewgen::cli::resolve_targets;
use pwr_viewgen::cli::OutputTarget;

#[test]
fn targets_keep_flag_order_and_output_picks_format() {
    let targets = resolve_targets(
        Some("shot.PNG".into()),
        Some("page.html".into()),
        Some("pic.png".into()),
    );
    assert_eq!(
        targets,
        vec![
            OutputTarget::Html("page.html".into()),
            OutputTarget::Png("pic.png".into()),
            OutputTarget::Png("shot.PNG".into()),
        ]
    );
    assert_eq!(
        resolve_targets(Some("out.htm".into()), None, None),
        vec![OutputTarget::Html("out.htm".into())]
    );
    assert!(resolve_targets(None, None, None).is_empty());
}

#[test]
fn png_extension_is_case_insensitive() {
    assert!(is_png_path("a.Png"));
    assert!(is_png_path(".png"));
    assert!(!is_png_path("png"));
    assert!(!is_png_path("a.pngx"));
}
