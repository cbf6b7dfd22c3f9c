//! Conversion targets.

use xwlrvnc::bridge::clipboard::text_mimes;
use xwlrvnc::bridge::x11::targets::{advertised, resolve, to_latin1};

fn mimes(list: &[&str]) -> Vec<String> {
    list.iter().map(|m| (*m).to_string()).collect()
}

#[test]
fn utf8_string_prefers_the_charset_labelled_mime() {
    let m = mimes(&["text/plain", "text/plain;charset=utf-8", "text/html"]);
    let c = resolve(b"UTF8_STRING", &m).unwrap();
    assert_eq!(c.mime, "text/plain;charset=utf-8");
    assert_eq!(c.type_, Some(&b"UTF8_STRING"[..]));
    assert!(!c.latin1);
}

#[test]
fn text_is_delivered_as_a_real_type() {
    let c = resolve(b"TEXT", &mimes(&["text/plain"])).unwrap();
    assert_eq!(c.type_, Some(&b"UTF8_STRING"[..]));
}

#[test]
fn string_is_transcoded() {
    let c = resolve(b"STRING", &mimes(&["text/plain"])).unwrap();
    assert_eq!(c.type_, Some(&b"STRING"[..]));
    assert!(c.latin1);
    assert_eq!(to_latin1("caf\u{e9} \u{2014} \u{1f600}".as_bytes()), b"caf\xe9 ? ?");
    assert_eq!(to_latin1(b"bad \xff byte"), b"bad ? byte");
}

#[test]
fn a_literal_x_name_offered_as_a_mime_is_accepted() {
    // wl-copy --type UTF8_STRING, or another bridge's source
    let c = resolve(b"UTF8_STRING", &mimes(&["UTF8_STRING"])).unwrap();
    assert_eq!(c.mime, "UTF8_STRING");
    let c = resolve(b"STRING", &mimes(&["TEXT"])).unwrap();
    assert_eq!(c.mime, "TEXT");
}

#[test]
fn any_text_mime_will_do_as_a_last_resort() {
    let c = resolve(b"UTF8_STRING", &mimes(&["image/png", "text/html"])).unwrap();
    assert_eq!(c.mime, "text/html");
}

#[test]
fn a_raw_mime_target_is_served_as_itself() {
    let m = mimes(&["image/png", "text/plain"]);
    let c = resolve(b"image/png", &m).unwrap();
    assert_eq!(c.mime, "image/png");
    assert_eq!(c.type_, None);
    assert_eq!(resolve(b"image/jpeg", &m), None);
    assert_eq!(resolve(b"MULTIPLE", &m), None, "deliberately unsupported");
    assert_eq!(resolve(b"UTF8_STRING", &mimes(&["image/png"])), None);
}

#[test]
fn targets_advertises_exactly_what_converts_once_each() {
    // our own sources label the text five ways; each X name appears once
    let m = text_mimes();
    let adv = advertised(&m);
    assert_eq!(
        adv,
        [
            b"UTF8_STRING".to_vec(),
            b"TEXT".to_vec(),
            b"STRING".to_vec(),
            b"text/plain;charset=utf-8".to_vec(),
            b"text/plain".to_vec(),
        ]
    );
    for name in &adv {
        assert!(
            resolve(name, &m).is_some(),
            "{:?} advertised but refused",
            String::from_utf8_lossy(name)
        );
    }
    // no text at all: only the raw mime
    assert_eq!(advertised(&mimes(&["image/png"])), [b"image/png".to_vec()]);
}
