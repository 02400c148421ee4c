//! The choices made when a run of pages with uniform properties is laid
//! out: the binding side, where the page number goes, and handing out the
//! laid-out flow of a prepared run exactly once.

use vstd::prelude::*;
use crate::tag::Smart;

verus! {

/// The side on which a document's pages are bound.
#[derive(Clone, Copy, Debug, PartialEq, Eq, Structural)]
pub enum Binding {
    /// Bound on the left, as for left-to-right text.
    Left,
    /// Bound on the right.
    Right,
}

/// The binding of a page run: the one set, or else the left side for
/// left-to-right text and the right side otherwise.
pub fn page_binding(binding: Smart<Binding>, text_left_to_right: bool) -> (b: Binding)
    ensures
        b == (match binding {
            Smart::Custom(b) => b,
            Smart::Auto => if text_left_to_right {
                Binding::Left
            } else {
                Binding::Right
            },
        }),
{
    match binding {
        Smart::Custom(b) => b,
        Smart::Auto => if text_left_to_right {
            Binding::Left
        } else {
            Binding::Right
        },
    }
}

/// How pages are numbered.
#[derive(Clone, Copy, Debug, PartialEq, Eq, Structural)]
pub enum NumberingKind {
    /// A pattern with this many counting pieces.
    Pattern { pieces: usize },
    /// A function.
    Func,
}

/// Whether the page number shows the total page count too: for a pattern
/// with at least two counting pieces, and always for a function.
pub fn shows_both(numbering: NumberingKind) -> (b: bool)
    ensures
        b == (match numbering {
            NumberingKind::Pattern { pieces } => pieces >= 2,
            NumberingKind::Func => true,
        }),
{
    match numbering {
        NumberingKind::Pattern { pieces } => pieces >= 2,
        NumberingKind::Func => true,
    }
}

/// A marginal as set, or the page number where it is left automatic.
pub open spec fn marginal_or_number<C>(set: Smart<Option<C>>, number: Option<C>) -> Option<C> {
    match set {
        Smart::Custom(c) => c,
        Smart::Auto => number,
    }
}

/// The header and footer of a run's pages. The page number goes into the
/// header if it is aligned to the top and into the footer otherwise, and
/// only where that marginal is left automatic; a marginal set explicitly,
/// even to nothing, stays as set.
pub fn page_marginals<C>(
    header: Smart<Option<C>>,
    footer: Smart<Option<C>>,
    number: Option<C>,
    number_at_top: bool,
) -> (hf: (Option<C>, Option<C>))
    ensures
        number_at_top ==> hf.0 == marginal_or_number(header, number) && hf.1
            == marginal_or_number(footer, None),
        !number_at_top ==> hf.0 == marginal_or_number(header, None) && hf.1
            == marginal_or_number(footer, number),
{
    if number_at_top {
        let h = match header {
            Smart::Custom(c) => c,
            Smart::Auto => number,
        };
        let f = match footer {
            Smart::Custom(c) => c,
            Smart::Auto => None,
        };
        (h, f)
    } else {
        let h = match header {
            Smart::Custom(c) => c,
            Smart::Auto => None,
        };
        let f = match footer {
            Smart::Custom(c) => c,
            Smart::Auto => number,
        };
        (h, f)
    }
}

/// A page run prepared for page-by-page processing: the laid-out flow `F`,
/// which is handed out once, and the run's page properties `P`.
pub struct PreparedPageRun<F, P> {
    fragment: Option<F>,
    props: P,
}

impl<F, P> PreparedPageRun<F, P> {
    /// The page properties shared by the run's pages.
    pub closed spec fn page_props(&self) -> P {
        self.props
    }

    /// The page properties shared by the run's pages.
    pub fn props(&self) -> (p: &P)
        ensures
            *p == self.page_props(),
    {
        &self.props
    }

    /// The flow, if not taken yet.
    pub closed spec fn fragment(&self) -> Option<F> {
        self.fragment
    }

    /// A prepared run holding `fragment`.
    pub fn new(fragment: F, props: P) -> (run: Self)
        ensures
            run.fragment() == Some(fragment),
            run.page_props() == props,
    {
        PreparedPageRun { fragment: Some(fragment), props }
    }

    /// Take the flow out for iteration, keeping the page properties. It can
    /// be taken only once.
    pub fn take_fragment(&mut self) -> (f: F)
        requires
            old(self).fragment() is Some,
        ensures
            f == old(self).fragment()->0,
            final(self).fragment() is None,
            final(self).page_props() == old(self).page_props(),
    {
        let taken = self.fragment.take();
        taken.unwrap()
    }
}

/// The page of a blank-page run: its first and only laid-out page.
pub fn first_page<T>(pages: Vec<T>) -> (page: T)
    requires
        pages@.len() > 0,
    ensures
        page == pages@[0],
{
    let mut pages = pages;
    pages.swap_remove(0)
}

} // verus!
