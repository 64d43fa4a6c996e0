use pwr_viewgen::model::Message;
use pwr_viewgen::render::render_html;
use pwr_viewgen::render::render_html_with_width;
use pwr_viewgen::render::render_message_html;
use pwr_viewgen::render::STYLESHEET;

fn cat(parts: &[&str]) -> String {
    parts.concat()
}

const NOW: i64 = 1_755_878_400;

fn extract(html: &str, start_marker: &str, end_marker: &str) -> String {
    let start = html.find(start_marker).expect("start marker") + start_marker.len();
    let end = start + html[start..].find(end_marker).expect("end marker");
    html[start..end].to_owned()
}

#[test]
fn bare_content_renders_content_only_without_header() {
    let msg = Message {
        content: "gm".into(),
        ..Message::default()
    };
    let html = render_html(&msg, NOW);
    assert!(html.contains(r#"<div id="wrap" style="--eg-width:600px">"#));
    assert!(
        !html.contains("class=\"eg-header"),
        "no header without username: {}",
        html.rfind("<body").map(|i| &html[i..]).unwrap_or(&html)
    );
    assert_eq!(
        extract(&html, r#"<div class="eg-content">"#, "</div>"),
        "<p>gm</p>"
    );
    assert!(!html.contains("class=\"eg-embed"));
}

#[test]
fn header_shows_username_and_avatar_when_present() {
    let msg = Message {
        content: "hi".into(),
        username: Some("Ada".into()),
        avatar_url: Some("https://x.test/a.png".into()),
        ..Message::default()
    };
    let html = render_html(&msg, NOW);
    assert!(html.contains("<img class=\"eg-avatar\" src=\"https://x.test/a.png\" alt=\"\">"));
    assert!(html.contains("<span class=\"eg-username\">Ada</span>"));
}

#[test]
fn stylesheet_is_embedded_once_in_head() {
    let msg = Message::default();
    let html = render_html(&msg, NOW);
    assert_eq!(html.matches(STYLESHEET).count(), 1);
}

#[test]
fn empty_message_renders_only_the_wrapper() {
    assert_eq!(render_message_html(&Message::default(), NOW), "<div id=\"wrap\"></div>");
    let blank = Message {
        content: " \n\t ".into(),
        ..Message::default()
    };
    assert_eq!(render_message_html(&blank, NOW), "<div id=\"wrap\"></div>");
}

#[test]
fn username_without_avatar_shows_placeholder() {
    let msg = Message {
        username: Some("<Bot>".into()),
        ..Message::default()
    };
    assert_eq!(
        render_message_html(&msg, NOW),
        cat(&[
            "<div id=\"wrap\"><div class=\"eg-header\">",
            "<span class=\"eg-avatar-placeholder\"></span>",
            "<span class=\"eg-username\">&lt;Bot&gt;</span></div></div>"
        ])
    );
}

#[test]
fn document_width_is_written_in_pixels() {
    let html = render_html_with_width(&Message::default(), NOW, 1234);
    assert!(html.starts_with("<!DOCTYPE html><html><head><meta charset=\"utf-8\"><style>"));
    assert!(html.contains("<div id=\"wrap\" style=\"--eg-width:1234px\"></div>"));
    assert!(html.ends_with("</body></html>"));
}

#[test]
fn other_flag_bits_do_not_change_the_output() {
    let base = Message {
        content: "**x**".into(),
        flags: Some(4),
        ..Message::default()
    };
    let same = Message {
        flags: None,
        ..base.clone()
    };
    assert_eq!(render_html(&base, NOW), render_html(&same, NOW));
}
