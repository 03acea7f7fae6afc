use instagroup::media::Duration;
use instagroup::numfmt::{u64_string, u64_string2, u64_string3};
use instagroup::pretty::PrettyDuration;

#[test]
fn decimal_rendering_is_plain() {
    assert_eq!(u64_string(0), "0");
    assert_eq!(u64_string(7), "7");
    assert_eq!(u64_string(1234567890), "1234567890");
    assert_eq!(u64_string(u64::MAX), "18446744073709551615");
}

#[test]
fn padded_rendering_keeps_wide_values() {
    assert_eq!(u64_string2(3), "03");
    assert_eq!(u64_string2(42), "42");
    assert_eq!(u64_string2(123), "123");
    assert_eq!(u64_string3(5), "005");
    assert_eq!(u64_string3(45), "045");
    assert_eq!(u64_string3(678), "678");
    assert_eq!(u64_string3(1234), "1234");
}

#[test]
fn full_duration_form_has_millisecond_precision() {
    // 1h 2m 3s 456ms
    let d = PrettyDuration(Duration {
        micros: 3_723_456_000,
    });
    assert_eq!(d.render_full(), "01:02:03.456");
    let d = PrettyDuration(Duration { micros: 83_000_000 });
    assert_eq!(d.render_full(), "00:01:23.000");
    let d = PrettyDuration(Duration { micros: 999_999 });
    assert_eq!(d.render_full(), "00:00:00.999");
}

#[test]
fn brief_duration_form_omits_empty_hours() {
    let d = PrettyDuration(Duration {
        micros: 3_723_456_000,
    });
    assert_eq!(d.render_brief(), "01:02:03");
    let d = PrettyDuration(Duration { micros: 83_000_000 });
    assert_eq!(d.render_brief(), "01:23");
    let d = PrettyDuration(Duration { micros: 0 });
    assert_eq!(d.render_brief(), "00:00");
}

#[test]
fn pretty_duration_wraps_via_from() {
    let d: PrettyDuration = Duration { micros: 42 }.into();
    assert_eq!(d.0.micros, 42);
}
