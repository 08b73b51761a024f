//! The snapshot parser: the control tool's multi-record text dump becomes an
//! ordered list of windows, and its one-line active-workspace report yields
//! the workspace display name.

use vstd::prelude::*;

use crate::num::{
    parse_i32_or_zero, parse_u8_or_zero, spec_i32_or_zero, spec_parse_i32, spec_u8_or_zero,
};
use crate::text::{
    lemma_split_len, match_at, match_at_exec, spec_split, spec_split_once, spec_strip_parens,
    spec_trim, split_once_str, split_str, str_eq, strip_parens_str, trim_str,
};
use crate::window::{spec_default_window, Window, WindowView};

verus! {

/// The record separator: a blank line.
pub open spec fn record_sep() -> Seq<char> {
    seq!['\n', '\n']
}

/// The record texts of a dump: the pieces between blank lines, in order,
/// including the trailing piece that a final separator leaves empty.
pub open spec fn spec_record_seqs(s: Seq<char>) -> Seq<Seq<char>> {
    spec_split(s, record_sep())
}

/// The lines of one record: pieces between newlines, a trailing empty piece
/// dropped, as `str::lines` yields them.
pub open spec fn spec_lines(s: Seq<char>) -> Seq<Seq<char>> {
    let raw = spec_split(s, seq!['\n']);
    if raw.len() > 0 && raw.last().len() == 0 {
        raw.drop_last()
    } else {
        raw
    }
}

/// One recognized `key: value` pair applied to a window under construction.
/// Unrecognized keys change nothing; malformed numerals become zero.
pub open spec fn spec_apply_field(w: WindowView, key: Seq<char>, value: Seq<char>) -> WindowView {
    if key == "monitor"@ {
        WindowView { monitor: spec_i32_or_zero(value), ..w }
    } else if key == "class"@ {
        WindowView { class: value, ..w }
    } else if key == "title"@ {
        WindowView { title: value, ..w }
    } else if key == "workspace"@ {
        match spec_split_once(value, seq![' ']) {
            Some((id_part, name_part)) => WindowView {
                workspace_id: spec_i32_or_zero(id_part),
                workspace_name: name_part,
                ..w
            },
            None => WindowView {
                workspace_id: 0,
                workspace_name: Seq::<char>::empty(),
                ..w
            },
        }
    } else if key == "pid"@ {
        WindowView { pid: spec_i32_or_zero(value), ..w }
    } else if key == "fullscreen"@ {
        WindowView { fullscreen: spec_u8_or_zero(value), ..w }
    } else {
        w
    }
}

/// One raw line of a record applied to a window under construction: header
/// lines are discarded, the rest are trimmed and read as `key: value`.
pub open spec fn spec_apply_line(w: WindowView, line: Seq<char>) -> WindowView {
    if match_at(line, "Window "@, 0) {
        w
    } else {
        match spec_split_once(spec_trim(line), ": "@) {
            Some((key, value)) => spec_apply_field(w, key, value),
            None => w,
        }
    }
}

/// A record's lines folded over a window under construction, first to last.
pub open spec fn spec_apply_lines(w: WindowView, lines: Seq<Seq<char>>) -> WindowView
    decreases lines.len(),
{
    if lines.len() == 0 {
        w
    } else {
        spec_apply_lines(spec_apply_line(w, lines[0]), lines.drop_first())
    }
}

pub proof fn lemma_apply_lines_snoc(w: WindowView, lines: Seq<Seq<char>>, line: Seq<char>)
    ensures
        spec_apply_lines(w, lines.push(line)) == spec_apply_line(
            spec_apply_lines(w, lines),
            line,
        ),
    decreases lines.len(),
{
    if lines.len() == 0 {
        assert(lines.push(line).drop_first() =~= Seq::<Seq<char>>::empty());
        assert(lines.push(line)[0] == line);
        assert(spec_apply_lines(w, lines.push(line)) == spec_apply_lines(
            spec_apply_line(w, line),
            lines.push(line).drop_first(),
        ));
        assert(spec_apply_lines(spec_apply_line(w, line), Seq::<Seq<char>>::empty())
            == spec_apply_line(w, line));
        assert(spec_apply_lines(w, lines) == w);
    } else {
        assert(lines.push(line).drop_first() =~= lines.drop_first().push(line));
        assert(lines.push(line)[0] == lines[0]);
        lemma_apply_lines_snoc(spec_apply_line(w, lines[0]), lines.drop_first(), line);
        assert(spec_apply_lines(w, lines.push(line)) == spec_apply_lines(
            spec_apply_line(w, lines[0]),
            lines.drop_first().push(line),
        ));
        assert(spec_apply_lines(w, lines) == spec_apply_lines(
            spec_apply_line(w, lines[0]),
            lines.drop_first(),
        ));
    }
}

/// The window one record text describes: the default window with each of the
/// record's lines applied in order.
pub open spec fn spec_window_of_record(rec: Seq<char>) -> WindowView {
    spec_apply_lines(spec_default_window(), spec_lines(rec))
}

/// The record texts that yield windows: all of them, except that a trailing
/// empty piece — what a final separator leaves behind — is dropped.
pub open spec fn spec_kept_records(s: Seq<char>) -> Seq<Seq<char>> {
    let segs = spec_record_seqs(s);
    if segs.len() > 0 && segs.last().len() == 0 {
        segs.drop_last()
    } else {
        segs
    }
}

/// The windows of a full dump: one per record, in record order; only the
/// empty piece a final separator leaves yields no window.
pub open spec fn spec_parse_clients(s: Seq<char>) -> Seq<WindowView> {
    spec_kept_records(s).map_values(|rec: Seq<char>| spec_window_of_record(rec))
}

fn apply_line(w: Window, line: &str) -> (r: Window)
    ensures
        r@ == spec_apply_line(w@, line@),
{
    proof {
        reveal_strlit(": ");
        reveal_strlit(" ");
    }
    if match_at_exec(line, "Window ", 0) {
        return w;
    }
    let t = trim_str(line);
    let mut w = w;
    match split_once_str(t, ": ") {
        None => w,
        Some((key, value)) => {
            if str_eq(key, "monitor") {
                w.monitor = parse_i32_or_zero(value);
            } else if str_eq(key, "class") {
                w.class = String::from_str(value);
            } else if str_eq(key, "title") {
                w.title = String::from_str(value);
            } else if str_eq(key, "workspace") {
                match split_once_str(value, " ") {
                    Some((id_part, name_part)) => {
                        proof {
                            assert(" "@ =~= seq![' ']);
                        }
                        w.workspace = (parse_i32_or_zero(id_part), String::from_str(name_part));
                    },
                    None => {
                        proof {
                            assert(" "@ =~= seq![' ']);
                        }
                        w.workspace = (0, String::new());
                    },
                }
            } else if str_eq(key, "pid") {
                w.pid = parse_i32_or_zero(value);
            } else if str_eq(key, "fullscreen") {
                w.fullscreen = parse_u8_or_zero(value);
            }
            w
        },
    }
}

/// The window one record text describes.
fn window_of_record(rec: &str) -> (w: Window)
    ensures
        w@ == spec_window_of_record(rec@),
{
    proof {
        reveal_strlit("\n");
        assert("\n"@ =~= seq!['\n']);
    }
    let lines: Vec<&str> = split_str(rec, "\n");
    let ghost line_seqs = spec_lines(rec@);
    let mut count = lines.len();
    proof {
        assert(lines@.map_values(|t: &str| t@).len() == lines@.len());
        lemma_split_len(rec@, seq!['\n']);
    }
    if count > 0 && lines[count - 1].is_empty() {
        count = count - 1;
        proof {
            assert(line_seqs =~= lines@.map_values(|t: &str| t@).drop_last());
        }
    } else {
        proof {
            assert(line_seqs =~= lines@.map_values(|t: &str| t@));
        }
    }
    let mut w = Window::new();
    let mut idx: usize = 0;
    proof {
        assert(line_seqs.take(0) =~= Seq::<Seq<char>>::empty());
    }
    while idx < count
        invariant
            0 <= idx <= count <= lines@.len(),
            line_seqs.len() == count,
            forall|j: int| 0 <= j < count ==> line_seqs[j] == #[trigger] lines@[j]@,
            w@ == spec_apply_lines(spec_default_window(), line_seqs.take(idx as int)),
        decreases count - idx,
    {
        w = apply_line(w, lines[idx]);
        proof {
            assert(line_seqs.take(idx + 1).drop_last() =~= line_seqs.take(idx as int));
            lemma_apply_lines_snoc(
                spec_default_window(),
                line_seqs.take(idx as int),
                line_seqs[idx as int],
            );
            assert(line_seqs.take(idx as int).push(line_seqs[idx as int]) =~= line_seqs.take(
                idx + 1,
            ));
        }
        idx = idx + 1;
    }
    proof {
        assert(line_seqs.take(count as int) =~= line_seqs);
    }
    w
}

/// The windows of a full snapshot dump, one per record, in record order.
pub fn parse_clients(clients: &str) -> (r: Vec<Window>)
    ensures
        r@.map_values(|w: Window| w@) == spec_parse_clients(clients@),
{
    proof {
        reveal_strlit("\n\n");
        assert("\n\n"@ =~= record_sep());
    }
    let segs: Vec<&str> = split_str(clients, "\n\n");
    let ghost seg_seqs = spec_record_seqs(clients@);
    proof {
        lemma_split_len(clients@, record_sep());
        assert(segs@.map_values(|t: &str| t@).len() == segs@.len());
        assert forall|j: int| 0 <= j < seg_seqs.len() implies seg_seqs[j]
            == #[trigger] segs@[j]@ by {
            assert(segs@.map_values(|t: &str| t@)[j] == segs@[j]@);
        }
    }
    let mut count = segs.len();
    if count > 0 && segs[count - 1].is_empty() {
        count = count - 1;
    }
    proof {
        assert(count == spec_kept_records(clients@).len());
    }
    let mut out: Vec<Window> = Vec::new();
    let mut idx: usize = 0;
    while idx < count
        invariant
            0 <= idx <= count,
            count <= segs@.len(),
            seg_seqs.len() == segs@.len(),
            count == spec_kept_records(clients@).len(),
            seg_seqs == spec_record_seqs(clients@),
            forall|j: int| 0 <= j < seg_seqs.len() ==> seg_seqs[j] == #[trigger] segs@[j]@,
            out@.len() == idx,
            forall|j: int|
                0 <= j < idx ==> #[trigger] out@[j]@ == spec_window_of_record(seg_seqs[j]),
        decreases count - idx,
    {
        let w = window_of_record(segs[idx]);
        out.push(w);
        idx = idx + 1;
    }
    proof {
        let kept = spec_kept_records(clients@);
        assert forall|j: int| 0 <= j < count implies kept[j] == seg_seqs[j] by {
            if kept.len() < seg_seqs.len() {
                assert(seg_seqs.drop_last()[j] == seg_seqs[j]);
            }
        }
        assert(out@.map_values(|w: Window| w@) =~= spec_parse_clients(clients@));
    }
    out
}

/// Parsing preserves record order: there is one window per record — only an
/// empty piece left by a final separator yields none — and the window at
/// each position comes from the record at the same position.
pub proof fn lemma_parse_order(s: Seq<char>)
    ensures
        spec_record_seqs(s).len() >= 1,
        spec_record_seqs(s).last().len() == 0 ==> spec_parse_clients(s).len()
            == spec_record_seqs(s).len() - 1,
        spec_record_seqs(s).last().len() != 0 ==> spec_parse_clients(s).len()
            == spec_record_seqs(s).len(),
        forall|i: int|
            0 <= i < spec_parse_clients(s).len() ==> #[trigger] spec_parse_clients(s)[i]
                == spec_window_of_record(spec_record_seqs(s)[i]),
{
    lemma_split_len(s, record_sep());
    assert forall|i: int| 0 <= i < spec_parse_clients(s).len() implies #[trigger] spec_parse_clients(
        s,
    )[i] == spec_window_of_record(spec_record_seqs(s)[i]) by {
        if spec_kept_records(s).len() < spec_record_seqs(s).len() {
            assert(spec_record_seqs(s).drop_last()[i] == spec_record_seqs(s)[i]);
        }
    }
}

/// A record line whose `pid` value does not parse still updates its window:
/// the pid becomes zero and every other field keeps its value, so one
/// corrupt field never drops the record.
pub proof fn lemma_unparsable_pid_line(w: WindowView, line: Seq<char>)
    requires
        !match_at(line, "Window "@, 0),
        (spec_split_once(spec_trim(line), ": "@) matches Some(kv) && kv.0 == "pid"@
            && spec_parse_i32(kv.1) is None),
    ensures
        (spec_apply_line(w, line) == WindowView { pid: 0, ..w }),
{
    reveal_strlit("pid");
    reveal_strlit("monitor");
    reveal_strlit("class");
    reveal_strlit("title");
    reveal_strlit("workspace");
    reveal_strlit("fullscreen");
    let kv = spec_split_once(spec_trim(line), ": "@)->Some_0;
    assert(kv.0 != "monitor"@) by {
        assert(kv.0.len() == 3 && "monitor"@.len() == 7);
    }
    assert(kv.0 != "class"@) by {
        assert(kv.0.len() == 3 && "class"@.len() == 5);
    }
    assert(kv.0 != "title"@) by {
        assert(kv.0.len() == 3 && "title"@.len() == 5);
    }
    assert(kv.0 != "workspace"@) by {
        assert(kv.0.len() == 3 && "workspace"@.len() == 9);
    }
    assert(kv.0 != "fullscreen"@) by {
        assert(kv.0.len() == 3 && "fullscreen"@.len() == 10);
    }
}

/// Appending one blank-line separator appends exactly one empty piece to the
/// record texts, provided the text does not already end in a newline.
proof fn lemma_records_trailing_sep(t: Seq<char>)
    requires
        t.len() == 0 || t.last() != '\n',
    ensures
        spec_record_seqs(t + record_sep()) == spec_record_seqs(t) + seq![Seq::<char>::empty()],
    decreases t.len(),
{
    let sep = record_sep();
    let u = t + sep;
    if t.len() == 0 {
        assert(u.subrange(0, 2) =~= sep);
        assert(u.skip(2) =~= Seq::<char>::empty());
        assert(t =~= Seq::<char>::empty());
        assert(spec_split(u, sep) =~= spec_record_seqs(t) + seq![Seq::<char>::empty()]);
    } else if match_at(t, sep, 0) {
        assert(t.len() > 2) by {
            if t.len() == 2 {
                assert(t.subrange(0, 2) =~= t);
                assert(t.last() == '\n');
            }
        }
        assert(t.skip(2).last() == t.last());
        assert(u.subrange(0, 2) =~= t.subrange(0, 2));
        assert(match_at(u, sep, 0));
        assert(u.skip(2) =~= t.skip(2) + sep);
        lemma_records_trailing_sep(t.skip(2));
        assert(spec_split(u, sep) == seq![Seq::<char>::empty()] + spec_split(t.skip(2) + sep, sep));
        assert(seq![Seq::<char>::empty()] + (spec_split(t.skip(2), sep) + seq![
            Seq::<char>::empty(),
        ]) =~= (seq![Seq::<char>::empty()] + spec_split(t.skip(2), sep)) + seq![
            Seq::<char>::empty(),
        ]);
    } else {
        assert(!match_at(u, sep, 0)) by {
            if match_at(u, sep, 0) {
                if t.len() == 1 {
                    assert(u.subrange(0, 2)[0] == t[0]);
                    assert(t[0] == '\n');
                } else {
                    assert(u.subrange(0, 2) =~= t.subrange(0, 2));
                }
            }
        }
        assert(u.drop_first() =~= t.drop_first() + sep);
        if t.len() >= 2 {
            assert(t.drop_first().last() == t.last());
        } else {
            assert(t.drop_first().len() == 0);
        }
        lemma_records_trailing_sep(t.drop_first());
        let rt = spec_split(t.drop_first(), sep);
        let ru = spec_split(u.drop_first(), sep);
        lemma_split_len(t.drop_first(), sep);
        assert(ru == rt + seq![Seq::<char>::empty()]);
        assert(ru[0] == rt[0]);
        assert(u[0] == t[0]);
        assert(ru.drop_first() =~= rt.drop_first() + seq![Seq::<char>::empty()]);
        assert(spec_split(u, sep) == seq![seq![t[0]] + rt[0]] + (rt.drop_first() + seq![
            Seq::<char>::empty(),
        ]));
        assert(seq![seq![t[0]] + rt[0]] + (rt.drop_first() + seq![Seq::<char>::empty()]) =~= (seq![
            seq![t[0]] + rt[0],
        ] + rt.drop_first()) + seq![Seq::<char>::empty()]);
    }
}

/// A dump that ends with one final blank-line separator parses to exactly one
/// window per record: the trailing empty piece yields no phantom window.
pub proof fn lemma_no_phantom_record(t: Seq<char>)
    requires
        t.len() == 0 || t.last() != '\n',
    ensures
        spec_parse_clients(t + record_sep()).len() == spec_record_seqs(t).len(),
        forall|i: int|
            0 <= i < spec_record_seqs(t).len() ==> #[trigger] spec_parse_clients(
                t + record_sep(),
            )[i] == spec_window_of_record(spec_record_seqs(t)[i]),
{
    lemma_records_trailing_sep(t);
    lemma_split_len(t, record_sep());
    assert(spec_record_seqs(t + record_sep()).drop_last() =~= spec_record_seqs(t));
}

/// What the one-line active-workspace report names: the parenthesized
/// display name after `"workspace ID <n> "`, parentheses stripped.
pub open spec fn spec_parse_activeworkspace(s: Seq<char>) -> Option<Seq<char>> {
    if s.len() == 0 {
        None
    } else {
        let first_line = match spec_split_once(s, seq!['\n']) {
            Some((a, _)) => a,
            None => s,
        };
        match spec_split_once(first_line, " on "@) {
            None => None,
            Some((pre, _)) => {
                if match_at(pre, "workspace ID "@, 0) {
                    let rest = pre.skip("workspace ID "@.len() as int);
                    match spec_split_once(rest, seq![' ']) {
                        None => None,
                        Some((_, name)) => Some(spec_strip_parens(name)),
                    }
                } else {
                    None
                }
            },
        }
    }
}

/// The workspace display name in the control tool's active-workspace report.
pub fn parse_activeworkspace<'a>(s: &'a str) -> (r: Option<&'a str>)
    ensures
        match r {
            Some(name) => spec_parse_activeworkspace(s@) == Some(name@),
            None => spec_parse_activeworkspace(s@) is None,
        },
{
    proof {
        reveal_strlit("\n");
        reveal_strlit(" on ");
        reveal_strlit("workspace ID ");
        reveal_strlit(" ");
        assert("\n"@ =~= seq!['\n']);
        assert(" "@ =~= seq![' ']);
    }
    if s.is_empty() {
        return None;
    }
    let first_line: &str = match split_once_str(s, "\n") {
        Some((a, _)) => a,
        None => s,
    };
    let pre: &str = match split_once_str(first_line, " on ") {
        Some((a, _)) => a,
        None => {
            return None;
        },
    };
    if !match_at_exec(pre, "workspace ID ", 0) {
        return None;
    }
    let rest: &str = pre.substring_char(13, pre.unicode_len());
    proof {
        assert(rest@ =~= pre@.skip("workspace ID "@.len() as int));
    }
    let name: &str = match split_once_str(rest, " ") {
        Some((_, b)) => b,
        None => {
            return None;
        },
    };
    Some(strip_parens_str(name))
}

} // verus!
