use confer::attach::{emit_line, finalize, Candidate};

#[test]
fn lifecycle_lines_never_wake_and_others_get_the_label() {
    assert_eq!(emit_line("hub", "confer watch: streaming new items (3 hubs)"), None);
    assert_eq!(emit_line("hub", "confer watch: owned by role be"), None);
    assert_eq!(emit_line("hub", "confer: new message"), Some("confer: new message".to_string()));
    assert_eq!(emit_line("hub", "── thread ──"), Some("── thread ──".to_string()));
    assert_eq!(emit_line("hub", "   continued"), Some("   continued".to_string()));
    assert_eq!(emit_line("hub", "01HX note from amy"), Some("[hub] 01HX note from amy".to_string()));
}

#[test]
fn finalize_dedups_and_sorts_by_label() {
    let c = |root: &str, role: &str, label: &str| Candidate { root: root.into(), role: role.into(), label: label.into() };
    let cs = vec![
        c("/h/z", "me", "zeta"),
        c("/h/a", "me", "alpha"),
        c("/h/z", "me", "zeta-again"),
        c("/h/a", "other", "alpha"),
        c("/h/m", "me", "mid"),
    ];
    assert_eq!(finalize(&cs), vec![1, 3, 4, 0]);
    assert!(finalize(&vec![]).is_empty());
}
