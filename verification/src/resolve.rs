//! The window resolver: a selected label maps back to the first window in
//! list order whose formatted label equals it exactly.

use vstd::prelude::*;

use crate::text::str_eq;
use crate::window::{spec_label, Window, WindowView};

verus! {

/// A real window whose label is exactly the selection.
pub open spec fn label_matches(w: WindowView, sel: Seq<char>) -> bool {
    w.class.len() > 0 && spec_label(w) == sel
}

/// The first window in list order whose label equals the selection.
pub open spec fn spec_resolve(ws: Seq<WindowView>, sel: Seq<char>) -> Option<WindowView>
    decreases ws.len(),
{
    if ws.len() == 0 {
        None
    } else if label_matches(ws[0], sel) {
        Some(ws[0])
    } else {
        spec_resolve(ws.drop_first(), sel)
    }
}

/// Resolution returns exactly the earliest matching window: whenever no
/// window before position `j` matches the selection and the window at `j`
/// does, that window is the result.
pub proof fn lemma_resolve_first_match(ws: Seq<WindowView>, sel: Seq<char>, j: int)
    requires
        0 <= j < ws.len(),
        label_matches(ws[j], sel),
        forall|k: int| 0 <= k < j ==> !label_matches(ws[k], sel),
    ensures
        spec_resolve(ws, sel) == Some(ws[j]),
    decreases j,
{
    if j > 0 {
        lemma_resolve_first_match(ws.drop_first(), sel, j - 1);
    }
}

/// Resolution fails exactly when no window matches the selection.
pub proof fn lemma_resolve_none(ws: Seq<WindowView>, sel: Seq<char>)
    requires
        forall|k: int| 0 <= k < ws.len() ==> !label_matches(ws[k], sel),
    ensures
        spec_resolve(ws, sel) is None,
    decreases ws.len(),
{
    if ws.len() > 0 {
        lemma_resolve_none(ws.drop_first(), sel);
    }
}

/// Formatting round-trips through resolution: the label of any real window
/// in the list resolves to the first window that formats to that same
/// label — in particular, resolution succeeds and the resolved window bears
/// the very label that was looked up.
pub proof fn lemma_label_round_trip(ws: Seq<WindowView>, i: int)
    requires
        0 <= i < ws.len(),
        ws[i].class.len() > 0,
    ensures
        ({
            let r = spec_resolve(ws, spec_label(ws[i]));
            &&& r is Some
            &&& label_matches(r->Some_0, spec_label(ws[i]))
            &&& exists|j: int|
                0 <= j <= i && r == Some(ws[j]) && (forall|k: int|
                    0 <= k < j ==> !label_matches(ws[k], spec_label(ws[i])))
        }),
    decreases i,
{
    let sel = spec_label(ws[i]);
    if label_matches(ws[0], sel) {
        lemma_resolve_first_match(ws, sel, 0);
        assert(0 <= 0 <= i && spec_resolve(ws, sel) == Some(ws[0]) && (forall|k: int|
            0 <= k < 0 ==> !label_matches(ws[k], sel)));
    } else {
        assert(i > 0);
        lemma_label_round_trip(ws.drop_first(), i - 1);
        let r = spec_resolve(ws.drop_first(), sel);
        let j0 = choose|j: int|
            0 <= j <= i - 1 && r == Some(ws.drop_first()[j]) && (forall|k: int|
                0 <= k < j ==> !label_matches(ws.drop_first()[k], sel));
        assert(spec_resolve(ws, sel) == r);
        assert(ws.drop_first()[j0] == ws[j0 + 1]);
        assert forall|k: int| 0 <= k < j0 + 1 implies !label_matches(ws[k], sel) by {
            if k > 0 {
                assert(ws.drop_first()[k - 1] == ws[k]);
            }
        }
        assert(0 <= j0 + 1 <= i && spec_resolve(ws, sel) == Some(ws[j0 + 1]) && (forall|k: int|
            0 <= k < j0 + 1 ==> !label_matches(ws[k], sel)));
    }
}

/// The first window in list order whose label equals the selection, cloned;
/// absent when no label matches.
pub fn get_window_from_arg(windows: &Vec<Window>, arg: &str) -> (r: Option<Window>)
    ensures
        match r {
            Some(w) => spec_resolve(windows@.map_values(|w: Window| w@), arg@) == Some(w@),
            None => spec_resolve(windows@.map_values(|w: Window| w@), arg@) is None,
        },
{
    let ghost views = windows@.map_values(|w: Window| w@);
    let mut i: usize = 0;
    let n = windows.len();
    proof {
        assert(views.skip(0) =~= views);
    }
    while i < n
        invariant
            0 <= i <= n,
            n == windows@.len(),
            views == windows@.map_values(|w: Window| w@),
            spec_resolve(views, arg@) == spec_resolve(views.skip(i as int), arg@),
        decreases n - i,
    {
        let found = match windows[i].format() {
            Some(label) => str_eq(label.as_str(), arg),
            None => false,
        };
        proof {
            assert(views.skip(i as int)[0] == views[i as int]);
            assert(views[i as int] == windows@[i as int]@);
        }
        if found {
            proof {
                assert(label_matches(views.skip(i as int)[0], arg@));
            }
            return Some(windows[i].clone());
        }
        proof {
            assert(!label_matches(views.skip(i as int)[0], arg@));
            assert(views.skip(i as int).drop_first() =~= views.skip(i + 1));
        }
        i = i + 1;
    }
    proof {
        assert(views.skip(n as int) =~= Seq::<WindowView>::empty());
    }
    None
}

} // verus!
