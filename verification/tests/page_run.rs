use typst_memtables::page_run::{
    first_page, page_binding, page_marginals, shows_both, Binding, NumberingKind,
    PreparedPageRun,
};
use typst_memtables::tag::Smart;

#[test]
fn binding_follows_text_direction_unless_set() {
    assert_eq!(page_binding(Smart::Auto, true), Binding::Left);
    assert_eq!(page_binding(Smart::Auto, false), Binding::Right);
    assert_eq!(page_binding(Smart::Custom(Binding::Right), true), Binding::Right);
}

#[test]
fn numbering_shows_total_for_two_pieces() {
    assert!(!shows_both(NumberingKind::Pattern { pieces: 1 }));
    assert!(shows_both(NumberingKind::Pattern { pieces: 2 }));
    assert!(shows_both(NumberingKind::Func));
}

#[test]
fn page_number_fills_the_automatic_marginal() {
    let number = Some("1");
    assert_eq!(page_marginals(Smart::Auto, Smart::Auto, number, false), (None, Some("1")));
    assert_eq!(page_marginals(Smart::Auto, Smart::Auto, number, true), (Some("1"), None));
    assert_eq!(
        page_marginals(Smart::Custom(Some("H")), Smart::Custom(None), number, false),
        (Some("H"), None)
    );
    assert_eq!(
        page_marginals(Smart::Custom(None), Smart::Custom(Some("F")), number, true),
        (None, Some("F"))
    );
}

#[test]
fn fragment_is_taken_once() {
    let mut run = PreparedPageRun::new(vec![1, 2, 3], "props");
    assert_eq!(run.take_fragment(), vec![1, 2, 3]);
    assert_eq!(*run.props(), "props");
}

#[test]
fn blank_page_is_the_first() {
    assert_eq!(first_page(vec!["a", "b"]), "a");
}
