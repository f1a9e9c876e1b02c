use mcp_rust_analyzer::correlator::Correlator;

// Registering an ID and resolving it twice delivers exactly once; the
// second resolve is a silent no-op.
#[test]
fn resolve_delivers_exactly_once() {
    let mut c = Correlator::new();
    c.register(7);
    assert_eq!(c.resolve(7, "outcome"), Some("outcome"));
    assert_eq!(c.resolve(7, "outcome"), None);
}

// Resolving an ID that was never registered does not error and has no
// observable effect on other slots.
#[test]
fn unknown_resolve_is_silent() {
    let mut c = Correlator::new();
    c.register(1);
    assert_eq!(c.resolve(99, "x"), None);
    assert_eq!(c.resolve(1, "y"), Some("y"));
}

// A cancelled (timed-out) request neither delivers nor disturbs another
// in-flight request, whose response still arrives normally.
#[test]
fn timeout_leaves_other_requests_alone() {
    let mut c = Correlator::new();
    c.register(10);
    c.register(11);
    c.cancel(10);
    assert_eq!(c.resolve(10, "late"), None);
    assert_eq!(c.resolve(11, "ok"), Some("ok"));
}

#[test]
fn cancel_unknown_id_is_silent() {
    let mut c = Correlator::new();
    c.cancel(42);
    c.register(42);
    assert_eq!(c.resolve(42, 5), Some(5));
}
