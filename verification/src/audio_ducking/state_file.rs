//! Reading and writing the lines of the state file.
//!
//! Singles stand in the file as decimal text. Turning that text into a bit pattern,
//! and back, is floating-point work: the caller hands it in as a function.
use vstd::prelude::*;

use crate::audio_ducking::state::{
    ducker_views, Baseline, DuckerEntry, DuckerView, SharedState,
    StateView,
};
use crate::single::Single;
use crate::text::{after, characters, decimal, find, head, lines, number, trimmed};
use crate::text;

verus! {

// ---------------------------------------------------------------------------
// Reading
// ---------------------------------------------------------------------------

/// `f` reads a text as the function `read` does.
pub open spec fn reads_as<F: Fn(&str) -> Option<Single>>(
    f: F,
    read: spec_fn(Seq<char>) -> Option<Single>,
) -> bool {
    forall|t: &str, r: Option<Single>| #[trigger] call_ensures(f, (t,), r) ==> r == read(t@)
}

/// The first three fields of a line, and all that follows them.
pub open spec fn four_fields(s: Seq<char>) -> Option<(Seq<char>, Seq<char>, Seq<char>, Seq<char>)> {
    match after(s, ' ') {
        Some(s1) => match after(s1, ' ') {
            Some(s2) => match after(s2, ' ') {
                Some(s3) => Some((head(s, ' '), head(s1, ' '), head(s2, ' '), s3)),
                None => None,
            },
            None => None,
        },
        None => None,
    }
}

/// The state with the ducker that the fields of a `D` line stand for.
pub open spec fn with_ducker_fields(
    state: StateView,
    rest: Seq<char>,
    read: spec_fn(Seq<char>) -> Option<Single>,
) -> StateView {
    match four_fields(rest) {
        Some((instance, pid, heartbeat, ratio)) => match (
            number(pid, u32::MAX as nat),
            number(heartbeat, u64::MAX as nat),
            read(ratio),
        ) {
            (Some(pid), Some(heartbeat), Some(ratio)) => state.with_ducker(
                DuckerView {
                    instance,
                    pid: pid as u32,
                    heartbeat_ms: heartbeat as u64,
                    ratio,
                },
            ),
            _ => state,
        },
        None => state,
    }
}

/// The state with the baseline that the fields of a `B` line stand for.
pub open spec fn with_baseline_fields(
    state: StateView,
    rest: Seq<char>,
    read: spec_fn(Seq<char>) -> Option<Single>,
) -> StateView {
    match four_fields(rest) {
        Some((volume, ducked_to, seen, id)) => match (
            read(volume),
            read(ducked_to),
            number(seen, u64::MAX as nat),
        ) {
            (Some(volume), Some(ducked_to), Some(seen)) => state.with_baseline(
                id,
                Baseline { volume, ducked_to, last_seen_ms: seen as u64 },
            ),
            _ => state,
        },
        None => state,
    }
}

/// The state after one more line. A line that cannot be read changes nothing.
pub open spec fn with_line(
    state: StateView,
    line: Seq<char>,
    read: spec_fn(Seq<char>) -> Option<Single>,
) -> StateView {
    let tag = head(line, ' ');
    let rest = match after(line, ' ') {
        Some(rest) => rest,
        None => Seq::empty(),
    };
    if tag == seq!['D'] {
        with_ducker_fields(state, rest, read)
    } else if tag == seq!['B'] {
        with_baseline_fields(state, rest, read)
    } else if tag == seq!['X'] {
        match number(trimmed(rest), u64::MAX as nat) {
            Some(deadline) => StateView { migration_deadline_ms: Some(deadline as u64), ..state },
            None => state,
        }
    } else if tag == seq!['M'] {
        if rest.len() > 0 {
            state.with_migrated(rest)
        } else {
            state
        }
    } else {
        state
    }
}

/// The state after some lines.
pub open spec fn with_lines(
    state: StateView,
    ls: Seq<Seq<char>>,
    read: spec_fn(Seq<char>) -> Option<Single>,
) -> StateView
    decreases ls.len(),
{
    if ls.len() == 0 {
        state
    } else {
        with_line(with_lines(state, ls.drop_last(), read), ls.last(), read)
    }
}

/// The state that the content of a file stands for.
pub open spec fn parsed(
    content: Seq<char>,
    read: spec_fn(Seq<char>) -> Option<Single>,
) -> StateView {
    with_lines(StateView::blank(), lines(content), read)
}

/// A line tells nothing: its tag is none that is known, or what follows cannot be read.
pub open spec fn tells_nothing(line: Seq<char>, read: spec_fn(Seq<char>) -> Option<Single>) -> bool {
    let tag = head(line, ' ');
    let rest = match after(line, ' ') {
        Some(rest) => rest,
        None => Seq::empty(),
    };
    if tag == seq!['D'] {
        match four_fields(rest) {
            Some((_, pid, heartbeat, ratio)) => {
                ||| number(pid, u32::MAX as nat) is None
                ||| number(heartbeat, u64::MAX as nat) is None
                ||| read(ratio) is None
            },
            None => true,
        }
    } else if tag == seq!['B'] {
        match four_fields(rest) {
            Some((volume, ducked_to, seen, _)) => {
                ||| read(volume) is None
                ||| read(ducked_to) is None
                ||| number(seen, u64::MAX as nat) is None
            },
            None => true,
        }
    } else if tag == seq!['X'] {
        number(trimmed(rest), u64::MAX as nat) is None
    } else if tag == seq!['M'] {
        rest.len() == 0
    } else {
        true
    }
}

/// A damaged file is read as far as it goes: a line that tells nothing takes nothing away
/// from the lines before it and after it.
pub proof fn law_broken_lines_are_passed_over(
    state: StateView,
    earlier: Seq<Seq<char>>,
    line: Seq<char>,
    later: Seq<Seq<char>>,
    read: spec_fn(Seq<char>) -> Option<Single>,
)
    requires
        tells_nothing(line, read),
    ensures
        with_lines(state, earlier.push(line) + later, read) == with_lines(
            state,
            earlier + later,
            read,
        ),
    decreases later.len(),
{
    if later.len() == 0 {
        assert(earlier.push(line) + later == earlier.push(line));
        assert(earlier + later == earlier);
        assert(earlier.push(line).drop_last() == earlier);
    } else {
        law_broken_lines_are_passed_over(state, earlier, line, later.drop_last(), read);
        assert((earlier.push(line) + later).drop_last() == earlier.push(line) + later.drop_last());
        assert((earlier + later).drop_last() == earlier + later.drop_last());
    }
}

/// The end of each of the first three fields of `v` from `from` on, where there are
/// four.
fn split_four(v: &Vec<char>, from: usize) -> (res: Option<(usize, usize, usize)>)
    requires
        from <= v.len(),
    ensures
        match res {
            Some((a, b, c)) => from <= a < b < c < v.len() && four_fields(v@.skip(from as int))
                == Some(
                (
                    v@.subrange(from as int, a as int),
                    v@.subrange(a + 1, b as int),
                    v@.subrange(b + 1, c as int),
                    v@.subrange(c + 1, v.len() as int),
                ),
            ),
            None => four_fields(v@.skip(from as int)) is None,
        },
{
    let ghost s = v@.skip(from as int);
    let a: usize = text::find_from(v, from, ' ');
    if a >= v.len() {
        return None;
    }
    assert(head(s, ' ') == v@.subrange(from as int, a as int));
    let ghost s1 = v@.skip(a + 1);
    assert(s.skip(find(s, ' ') + 1) == s1);
    let b: usize = text::find_from(v, a + 1, ' ');
    if b >= v.len() {
        return None;
    }
    assert(head(s1, ' ') == v@.subrange(a + 1, b as int));
    let ghost s2 = v@.skip(b + 1);
    assert(s1.skip(find(s1, ' ') + 1) == s2);
    let c: usize = text::find_from(v, b + 1, ' ');
    if c >= v.len() {
        return None;
    }
    assert(head(s2, ' ') == v@.subrange(b + 1, c as int));
    assert(s2.skip(find(s2, ' ') + 1) == v@.subrange(c + 1, v.len() as int));
    Some((a, b, c))
}

fn apply_ducker<F: Fn(&str) -> Option<Single>>(
    state: &mut SharedState,
    v: &Vec<char>,
    from: usize,
    single: &F,
)
    requires
        old(state).wf(),
        from <= v.len(),
        forall|t: &str| call_requires(*single, (t,)),
    ensures
        final(state).wf(),
        forall|read: spec_fn(Seq<char>) -> Option<Single>| #[trigger]
            reads_as(*single, read) ==> final(state)@ == with_ducker_fields(
                old(state)@,
                v@.skip(from as int),
                read,
            ),
{
    match split_four(v, from) {
        Some((a, b, c)) => {
            let pid = text::parse_u32(v, a + 1, b);
            let heartbeat = text::parse_u64(v, b + 1, c);
            let ratio_text = text::string_of(v, c + 1, v.len());
            let ratio = single(ratio_text.as_str());
            if let (Some(pid), Some(heartbeat_ms), Some(ratio)) = (pid, heartbeat, ratio) {
                let instance = text::string_of(v, from, a);
                state.add_ducker(DuckerEntry { instance, pid, heartbeat_ms, ratio });
            }
        },
        None => {},
    }
}

fn apply_baseline<F: Fn(&str) -> Option<Single>>(
    state: &mut SharedState,
    v: &Vec<char>,
    from: usize,
    single: &F,
)
    requires
        old(state).wf(),
        from <= v.len(),
        forall|t: &str| call_requires(*single, (t,)),
    ensures
        final(state).wf(),
        forall|read: spec_fn(Seq<char>) -> Option<Single>| #[trigger]
            reads_as(*single, read) ==> final(state)@ == with_baseline_fields(
                old(state)@,
                v@.skip(from as int),
                read,
            ),
{
    match split_four(v, from) {
        Some((a, b, c)) => {
            let volume_text = text::string_of(v, from, a);
            let volume = single(volume_text.as_str());
            let ducked_text = text::string_of(v, a + 1, b);
            let ducked_to = single(ducked_text.as_str());
            let seen = text::parse_u64(v, b + 1, c);
            if let (Some(volume), Some(ducked_to), Some(last_seen_ms)) = (volume, ducked_to, seen) {
                let id = text::string_of(v, c + 1, v.len());
                state.set_baseline(&id, Baseline { volume, ducked_to, last_seen_ms });
            }
        },
        None => {},
    }
}

fn apply_line<F: Fn(&str) -> Option<Single>>(state: &mut SharedState, line: &Vec<char>, single: &F)
    requires
        old(state).wf(),
        forall|t: &str| call_requires(*single, (t,)),
    ensures
        final(state).wf(),
        forall|read: spec_fn(Seq<char>) -> Option<Single>| #[trigger]
            reads_as(*single, read) ==> final(state)@ == with_line(old(state)@, line@, read),
{
    assert(line@.skip(0) == line@);
    let space: usize = text::find_from(line, 0, ' ');
    let from: usize = if space < line.len() {
        space + 1
    } else {
        line.len()
    };
    let ghost tag = head(line@, ' ');
    let ghost rest = match after(line@, ' ') {
        Some(rest) => rest,
        None => Seq::empty(),
    };
    assert(rest == line@.skip(from as int));
    if space != 1 {
        assert(tag.len() != 1);
        return;
    }
    let c: char = line[0];
    assert(tag =~= seq![c]);
    assert(seq!['D'][0] == 'D' && seq!['B'][0] == 'B' && seq!['X'][0] == 'X' && seq!['M'][0] == 'M');
    if c == 'D' {
        apply_ducker(state, line, from, single);
    } else if c == 'B' {
        apply_baseline(state, line, from, single);
    } else if c == 'X' {
        let rest_text = text::string_of(line, from, line.len());
        assert(rest_text@ == rest);
        let trimmed_text = text::trim(rest_text.as_str());
        let digits = characters(trimmed_text.as_str());
        assert(digits@.subrange(0, digits.len() as int) == digits@);
        if let Some(deadline) = text::parse_u64(&digits, 0, digits.len()) {
            state.set_migration_deadline_ms(deadline);
        }
    } else if c == 'M' {
        if from < line.len() {
            let id = text::string_of(line, from, line.len());
            assert(id@ == rest);
            state.mark_migrated(&id);
        }
    }
}

/// The line of `v` from `from` up to a line feed at `to`.
fn line_of(v: &Vec<char>, from: usize, to: usize) -> (line: Vec<char>)
    requires
        from <= to <= v.len(),
    ensures
        line@ == text::without_cr(v@.subrange(from as int, to as int)),
{
    let end: usize = if from < to && v[to - 1] == '\r' {
        to - 1
    } else {
        to
    };
    copy_range(v, from, end)
}

fn copy_range(v: &Vec<char>, from: usize, to: usize) -> (part: Vec<char>)
    requires
        from <= to <= v.len(),
    ensures
        part@ == v@.subrange(from as int, to as int),
{
    let mut part: Vec<char> = Vec::new();
    let mut i: usize = from;
    while i < to
        invariant
            from <= i <= to <= v.len(),
            part@ == v@.subrange(from as int, i as int),
        decreases to - i,
    {
        part.push(v[i]);
        i += 1;
    }
    part
}

/// Reads the content of a state file.
pub fn parse<F: Fn(&str) -> Option<Single>>(content: &str, single: &F) -> (state: SharedState)
    requires
        forall|t: &str| call_requires(*single, (t,)),
    ensures
        state.wf(),
        forall|read: spec_fn(Seq<char>) -> Option<Single>| #[trigger]
            reads_as(*single, read) ==> state@ == parsed(content@, read),
{
    let v = characters(content);
    let mut state = SharedState::new();
    let mut from: usize = 0;
    let ghost mut done: Seq<Seq<char>> = Seq::empty();
    assert(v@.skip(0) == v@);
    assert(done + lines(v@) == lines(v@));
    while from < v.len()
        invariant
            from <= v.len(),
            v@ == content@,
            state.wf(),
            forall|t: &str| call_requires(*single, (t,)),
            lines(content@) == done + lines(v@.skip(from as int)),
            forall|read: spec_fn(Seq<char>) -> Option<Single>| #[trigger]
                reads_as(*single, read) ==> state@ == with_lines(StateView::blank(), done, read),
        decreases v.len() - from,
    {
        let ghost rest = v@.skip(from as int);
        let ghost before = done;
        let end: usize = text::find_from(&v, from, '\n');
        let line: Vec<char>;
        let next: usize;
        if end < v.len() {
            line = line_of(&v, from, end);
            next = end + 1;
            assert(head(rest, '\n') == v@.subrange(from as int, end as int));
            assert(rest.skip(find(rest, '\n') + 1) == v@.skip(next as int));
            assert(lines(rest) == seq![line@] + lines(v@.skip(next as int)));
        } else {
            line = copy_range(&v, from, end);
            next = end;
            assert(line@ == rest);
            assert(lines(v@.skip(next as int)) == Seq::<Seq<char>>::empty());
            assert(lines(rest) == seq![line@] + lines(v@.skip(next as int)));
        }
        apply_line(&mut state, &line, single);
        proof {
            done = before.push(line@);
            assert(done.drop_last() == before);
            assert(done + lines(v@.skip(next as int)) == before + (seq![line@] + lines(
                v@.skip(next as int),
            )));
        }
        from = next;
    }
    assert(lines(v@.skip(from as int)) == Seq::<Seq<char>>::empty());
    assert(done + Seq::<Seq<char>>::empty() == done);
    state
}

// ---------------------------------------------------------------------------
// Writing
// ---------------------------------------------------------------------------

/// `f` writes a single as the function `write` does.
pub open spec fn writes_as<F: Fn(Single) -> String>(
    f: F,
    write: spec_fn(Single) -> Seq<char>,
) -> bool {
    forall|x: Single, r: String| #[trigger] call_ensures(f, (x,), r) ==> r@ == write(x)
}

/// The text of some lines, with a line feed after each.
pub open spec fn terminated(ls: Seq<Seq<char>>) -> Seq<char>
    decreases ls.len(),
{
    if ls.len() == 0 {
        Seq::empty()
    } else {
        terminated(ls.drop_last()) + ls.last().push('\n')
    }
}

pub open spec fn deadline_lines(deadline_ms: Option<u64>) -> Seq<Seq<char>> {
    match deadline_ms {
        Some(deadline) => seq![seq!['X', ' '] + decimal(deadline as nat)],
        None => Seq::empty(),
    }
}

pub open spec fn mark_line(id: Seq<char>) -> Seq<char> {
    seq!['M', ' '] + id
}

/// Four fields with a space between any two.
pub open spec fn spaced(a: Seq<char>, b: Seq<char>, c: Seq<char>, d: Seq<char>) -> Seq<char> {
    a + seq![' '] + b + seq![' '] + c + seq![' '] + d
}

pub open spec fn ducker_line(d: DuckerView, write: spec_fn(Single) -> Seq<char>) -> Seq<char> {
    seq!['D', ' '] + spaced(
        d.instance,
        decimal(d.pid as nat),
        decimal(d.heartbeat_ms as nat),
        write(d.ratio),
    )
}

pub open spec fn baseline_line(
    id: Seq<char>,
    b: Baseline,
    write: spec_fn(Single) -> Seq<char>,
) -> Seq<char> {
    seq!['B', ' '] + spaced(
        write(b.volume),
        write(b.ducked_to),
        decimal(b.last_seen_ms as nat),
        id,
    )
}

/// The lines of the file, with the repaired identifiers in the order `marks` and the
/// baselines in the order `ids`.
pub open spec fn file_lines(
    state: StateView,
    marks: Seq<Seq<char>>,
    ids: Seq<Seq<char>>,
    write: spec_fn(Single) -> Seq<char>,
) -> Seq<Seq<char>> {
    seq![seq!['V', ' ', '2']] + deadline_lines(state.migration_deadline_ms) + marks.map_values(
        |id: Seq<char>| mark_line(id),
    ) + state.duckers.map_values(|d: DuckerView| ducker_line(d, write)) + ids.map_values(
        |id: Seq<char>| baseline_line(id, state.baselines[id], write),
    )
}

/// `order` holds each member of `names`, once.
pub open spec fn orders(order: Seq<Seq<char>>, names: Set<Seq<char>>) -> bool {
    order.no_duplicates() && order.to_set() == names
}

/// `content` is the file of the state. The order among the repaired identifiers, and
/// among the baselines, is left open.
pub open spec fn is_file_of(
    content: Seq<char>,
    state: StateView,
    write: spec_fn(Single) -> Seq<char>,
) -> bool {
    exists|marks: Seq<Seq<char>>, ids: Seq<Seq<char>>|
        orders(marks, state.migrated) && orders(ids, state.baselines.dom()) && content
            == terminated(#[trigger] file_lines(state, marks, ids, write))
}

proof fn lemma_terminated_add(a: Seq<Seq<char>>, b: Seq<Seq<char>>)
    ensures
        terminated(a + b) == terminated(a) + terminated(b),
    decreases b.len(),
{
    if b.len() == 0 {
        assert(a + b == a);
        assert(terminated(a) + terminated(b) == terminated(a));
    } else {
        lemma_terminated_add(a, b.drop_last());
        assert((a + b).drop_last() == a + b.drop_last());
        assert(terminated(a + b) == terminated(a) + terminated(b));
    }
}

proof fn lemma_terminated_one(line: Seq<char>)
    ensures
        terminated(seq![line]) == line.push('\n'),
{
    reveal_with_fuel(terminated, 2);
    assert(seq![line].drop_last() == Seq::<Seq<char>>::empty());
    assert(terminated(seq![line]) =~= line.push('\n'));
}

fn append_marks(out: &mut String, list: &Vec<String>)
    ensures
        final(out)@ == old(out)@ + terminated(
            list@.map_values(|s: String| s@).map_values(|id: Seq<char>| mark_line(id)),
        ),
{
    let ghost all = list@.map_values(|s: String| s@).map_values(|id: Seq<char>| mark_line(id));
    let mut i: usize = 0;
    assert(out@ == old(out)@ + terminated(all.take(0)));
    while i < list.len()
        invariant
            i <= list.len(),
            all == list@.map_values(|s: String| s@).map_values(|id: Seq<char>| mark_line(id)),
            out@ == old(out)@ + terminated(all.take(i as int)),
        decreases list.len() - i,
    {
        out.push('M');
        out.push(' ');
        out.append(list[i].as_str());
        out.push('\n');
        assert(all.take(i + 1).drop_last() == all.take(i as int));
        assert(out@ == old(out)@ + terminated(all.take(i + 1)));
        i += 1;
    }
    assert(all.take(i as int) == all);
}

fn append_duckers<F: Fn(Single) -> String>(out: &mut String, list: &Vec<DuckerEntry>, text: &F)
    requires
        forall|x: Single| call_requires(*text, (x,)),
    ensures
        forall|write: spec_fn(Single) -> Seq<char>| #[trigger]
            writes_as(*text, write) ==> final(out)@ == old(out)@ + terminated(
                ducker_views(list@).map_values(|d: DuckerView| ducker_line(d, write)),
            ),
{
    let mut i: usize = 0;
    proof {
        assert forall|write: spec_fn(Single) -> Seq<char>| #[trigger]
            writes_as(*text, write) implies out@ == old(out)@ + terminated(
            ducker_views(list@).map_values(|d: DuckerView| ducker_line(d, write)).take(0),
        ) by {
            assert(terminated(
                ducker_views(list@).map_values(|d: DuckerView| ducker_line(d, write)).take(0),
            ) == Seq::<char>::empty());
        }
    }
    while i < list.len()
        invariant
            i <= list.len(),
            forall|x: Single| call_requires(*text, (x,)),
            forall|write: spec_fn(Single) -> Seq<char>| #[trigger]
                writes_as(*text, write) ==> out@ == old(out)@ + terminated(
                    ducker_views(list@).map_values(|d: DuckerView| ducker_line(d, write)).take(
                        i as int,
                    ),
                ),
        decreases list.len() - i,
    {
        let ghost before = out@;
        let d = &list[i];
        out.push('D');
        out.push(' ');
        out.append(d.instance.as_str());
        out.push(' ');
        text::push_decimal(out, d.pid as u64);
        out.push(' ');
        text::push_decimal(out, d.heartbeat_ms);
        out.push(' ');
        let ratio = text(d.ratio);
        out.append(ratio.as_str());
        out.push('\n');
        proof {
            assert forall|write: spec_fn(Single) -> Seq<char>| #[trigger]
                writes_as(*text, write) implies out@ == old(out)@ + terminated(
                ducker_views(list@).map_values(|d: DuckerView| ducker_line(d, write)).take(i + 1),
            ) by {
                let all = ducker_views(list@).map_values(|d: DuckerView| ducker_line(d, write));
                assert(all.take(i + 1).drop_last() == all.take(i as int));
                assert(ratio@ == write(d.ratio));
                assert(out@ =~= before + ducker_line(d@, write).push('\n'));
                assert(all.take(i + 1).last() == ducker_line(d@, write));
                assert(out@ =~= old(out)@ + (terminated(all.take(i as int)) + all.take(
                    i + 1,
                ).last().push('\n')));
            }
        }
        i += 1;
    }
    proof {
        assert forall|write: spec_fn(Single) -> Seq<char>| #[trigger]
            writes_as(*text, write) implies out@ == old(out)@ + terminated(
            ducker_views(list@).map_values(|d: DuckerView| ducker_line(d, write)),
        ) by {
            let all = ducker_views(list@).map_values(|d: DuckerView| ducker_line(d, write));
            assert(all.take(i as int) == all);
        }
    }
}

fn append_baselines<F: Fn(Single) -> String>(
    out: &mut String,
    list: &Vec<(String, Baseline)>,
    text: &F,
)
    requires
        forall|x: Single| call_requires(*text, (x,)),
    ensures
        forall|write: spec_fn(Single) -> Seq<char>| #[trigger]
            writes_as(*text, write) ==> final(out)@ == old(out)@ + terminated(
                list@.map_values(|e: (String, Baseline)| baseline_line(e.0@, e.1, write)),
            ),
{
    let mut i: usize = 0;
    proof {
        assert forall|write: spec_fn(Single) -> Seq<char>| #[trigger]
            writes_as(*text, write) implies out@ == old(out)@ + terminated(
            list@.map_values(|e: (String, Baseline)| baseline_line(e.0@, e.1, write)).take(0),
        ) by {
            assert(terminated(
                list@.map_values(|e: (String, Baseline)| baseline_line(e.0@, e.1, write)).take(0),
            ) == Seq::<char>::empty());
        }
    }
    while i < list.len()
        invariant
            i <= list.len(),
            forall|x: Single| call_requires(*text, (x,)),
            forall|write: spec_fn(Single) -> Seq<char>| #[trigger]
                writes_as(*text, write) ==> out@ == old(out)@ + terminated(
                    list@.map_values(
                        |e: (String, Baseline)| baseline_line(e.0@, e.1, write),
                    ).take(i as int),
                ),
        decreases list.len() - i,
    {
        let ghost before = out@;
        let b: Baseline = list[i].1;
        out.push('B');
        out.push(' ');
        let volume = text(b.volume);
        out.append(volume.as_str());
        out.push(' ');
        let ducked_to = text(b.ducked_to);
        out.append(ducked_to.as_str());
        out.push(' ');
        text::push_decimal(out, b.last_seen_ms);
        out.push(' ');
        out.append(list[i].0.as_str());
        out.push('\n');
        proof {
            assert forall|write: spec_fn(Single) -> Seq<char>| #[trigger]
                writes_as(*text, write) implies out@ == old(out)@ + terminated(
                list@.map_values(|e: (String, Baseline)| baseline_line(e.0@, e.1, write)).take(
                    i + 1,
                ),
            ) by {
                let all = list@.map_values(
                    |e: (String, Baseline)| baseline_line(e.0@, e.1, write),
                );
                let line = baseline_line(list@[i as int].0@, b, write);
                assert(all.take(i + 1).drop_last() == all.take(i as int));
                assert(volume@ == write(b.volume));
                assert(ducked_to@ == write(b.ducked_to));
                assert(out@ =~= before + line.push('\n'));
                assert(all.take(i + 1).last() == line);
                assert(out@ =~= old(out)@ + (terminated(all.take(i as int)) + line.push('\n')));
            }
        }
        i += 1;
    }
    proof {
        assert forall|write: spec_fn(Single) -> Seq<char>| #[trigger]
            writes_as(*text, write) implies out@ == old(out)@ + terminated(
            list@.map_values(|e: (String, Baseline)| baseline_line(e.0@, e.1, write)),
        ) by {
            let all = list@.map_values(|e: (String, Baseline)| baseline_line(e.0@, e.1, write));
            assert(all.take(i as int) == all);
        }
    }
}

proof fn lemma_orders(order: Seq<Seq<char>>, names: Set<Seq<char>>)
    requires
        names.finite(),
        order.len() == names.len(),
        order.no_duplicates(),
        forall|i: int| 0 <= i < order.len() ==> names.contains(#[trigger] order[i]),
    ensures
        orders(order, names),
{
    broadcast use vstd::seq_lib::seq_to_set_is_finite;

    order.unique_seq_to_set();
    assert(order.to_set().subset_of(names));
    vstd::set_lib::lemma_subset_equality(order.to_set(), names);
}

/// The content of the state file.
pub fn render<F: Fn(Single) -> String>(state: &SharedState, text: &F) -> (content: String)
    requires
        state.wf(),
        forall|x: Single| call_requires(*text, (x,)),
    ensures
        forall|write: spec_fn(Single) -> Seq<char>| #[trigger]
            writes_as(*text, write) ==> is_file_of(content@, state@, write),
{
    let mut out = String::new();
    out.push('V');
    out.push(' ');
    out.push('2');
    out.push('\n');
    let ghost first = seq![seq!['V', ' ', '2']];
    proof {
        lemma_terminated_one(seq!['V', ' ', '2']);
        assert(out@ =~= terminated(first));
    }
    let ghost dl = deadline_lines(state@.migration_deadline_ms);
    match state.migration_deadline_ms() {
        Some(deadline) => {
            out.push('X');
            out.push(' ');
            text::push_decimal(&mut out, deadline);
            out.push('\n');
            proof {
                let line = seq!['X', ' '] + decimal(deadline as nat);
                lemma_terminated_one(line);
                assert(out@ =~= terminated(first) + line.push('\n'));
            }
        },
        None => {
            assert(out@ =~= terminated(first) + terminated(dl));
        },
    }
    assert(out@ == terminated(first) + terminated(dl));
    let marks = state.migrated();
    append_marks(&mut out, marks);
    append_duckers(&mut out, state.duckers(), text);
    let list = state.baselines();
    append_baselines(&mut out, list, text);
    proof {
        let mark_order = marks@.map_values(|s: String| s@);
        let order = list@.map_values(|e: (String, Baseline)| e.0@);
        lemma_orders(mark_order, state@.migrated);
        lemma_orders(order, state@.baselines.dom());
        let ml = mark_order.map_values(|id: Seq<char>| mark_line(id));
        assert forall|write: spec_fn(Single) -> Seq<char>| #[trigger]
            writes_as(*text, write) implies is_file_of(out@, state@, write) by {
            let dls = state@.duckers.map_values(|d: DuckerView| ducker_line(d, write));
            let bls = order.map_values(
                |id: Seq<char>| baseline_line(id, state@.baselines[id], write),
            );
            assert(bls =~= list@.map_values(
                |e: (String, Baseline)| baseline_line(e.0@, e.1, write),
            ));
            lemma_terminated_add(first, dl);
            lemma_terminated_add(first + dl, ml);
            lemma_terminated_add(first + dl + ml, dls);
            lemma_terminated_add(first + dl + ml + dls, bls);
            assert(file_lines(state@, mark_order, order, write) == first + dl + ml + dls + bls);
        }
    }
    out
}

// ---------------------------------------------------------------------------
// What a read gives back of a write
// ---------------------------------------------------------------------------

/// A text that can end a line of the file.
pub open spec fn fits_in_line(s: Seq<char>) -> bool {
    !s.contains('\n') && (s.len() > 0 ==> s.last() != '\r')
}

/// A text that can stand as a field inside a line of the file.
pub open spec fn fits_in_field(s: Seq<char>) -> bool {
    !s.contains('\n') && !s.contains(' ')
}

/// `x` is written as a field, and read from it again.
pub open spec fn reads_back(
    x: Single,
    write: spec_fn(Single) -> Seq<char>,
    read: spec_fn(Seq<char>) -> Option<Single>,
) -> bool {
    read(write(x)) == Some(x) && fits_in_field(write(x)) && fits_in_line(write(x))
}

/// The texts of the state keep to the lines and fields they are written to, and
/// each single in it is written so that it can be read again.
pub open spec fn can_be_written(
    state: StateView,
    write: spec_fn(Single) -> Seq<char>,
    read: spec_fn(Seq<char>) -> Option<Single>,
) -> bool {
    &&& forall|id: Seq<char>| #[trigger] state.migrated.contains(id) ==> id.len() > 0 && fits_in_line(id)
    &&& forall|id: Seq<char>| #[trigger]
        state.baselines.contains_key(id) ==> fits_in_line(id) && reads_back(
            state.baselines[id].volume,
            write,
            read,
        ) && reads_back(state.baselines[id].ducked_to, write, read)
    &&& forall|i: int|
        0 <= i < state.duckers.len() ==> fits_in_field((#[trigger] state.duckers[i]).instance)
            && reads_back(state.duckers[i].ratio, write, read)
}

proof fn lemma_with_lines_add(
    state: StateView,
    a: Seq<Seq<char>>,
    b: Seq<Seq<char>>,
    read: spec_fn(Seq<char>) -> Option<Single>,
)
    ensures
        with_lines(state, a + b, read) == with_lines(with_lines(state, a, read), b, read),
    decreases b.len(),
{
    if b.len() == 0 {
        assert(a + b == a);
    } else {
        lemma_with_lines_add(state, a, b.drop_last(), read);
        assert((a + b).drop_last() == a + b.drop_last());
    }
}

proof fn lemma_lines_of_terminated(ls: Seq<Seq<char>>)
    requires
        forall|i: int| 0 <= i < ls.len() ==> fits_in_line(#[trigger] ls[i]),
    ensures
        lines(terminated(ls)) == ls,
    decreases ls.len(),
{
    if ls.len() > 0 {
        let rest = ls.drop_first();
        let first = ls[0];
        assert(seq![first] + rest == ls);
        lemma_terminated_add(seq![first], rest);
        lemma_terminated_one(first);
        let s = terminated(ls);
        assert(s == first.push('\n') + terminated(rest));
        assert forall|i: int| 0 <= i < first.len() implies #[trigger] s[i] != '\n' by {
            assert(first.contains(first[i]));
        }
        text::lemma_find_unique(s, '\n', first.len() as int);
        assert(head(s, '\n') == first);
        assert(s.skip(first.len() as int + 1) == terminated(rest));
        assert forall|i: int| 0 <= i < rest.len() implies fits_in_line(#[trigger] rest[i]) by {
            assert(rest[i] == ls[i + 1]);
        }
        lemma_lines_of_terminated(rest);
        assert(text::without_cr(first) == first);
    }
}

/// The tag and the rest of a line.
proof fn lemma_tag(c: char, rest: Seq<char>)
    requires
        c != ' ',
    ensures
        head(seq![c, ' '] + rest, ' ') == seq![c],
        after(seq![c, ' '] + rest, ' ') == Some(rest),
{
    let s = seq![c, ' '] + rest;
    text::lemma_find_unique(s, ' ', 1);
    assert(s.take(1) =~= seq![c]);
    assert(s.skip(2) =~= rest);
}

proof fn lemma_field(a: Seq<char>, rest: Seq<char>)
    requires
        !a.contains(' '),
    ensures
        head(a + seq![' '] + rest, ' ') == a,
        after(a + seq![' '] + rest, ' ') == Some(rest),
{
    let s = a + seq![' '] + rest;
    assert forall|i: int| 0 <= i < a.len() implies #[trigger] s[i] != ' ' by {
        assert(a.contains(a[i]));
    }
    text::lemma_find_unique(s, ' ', a.len() as int);
    assert(s.take(a.len() as int) =~= a);
    assert(s.skip(a.len() as int + 1) =~= rest);
}

proof fn lemma_spaced(a: Seq<char>, b: Seq<char>, c: Seq<char>, d: Seq<char>)
    requires
        !a.contains(' '),
        !b.contains(' '),
        !c.contains(' '),
    ensures
        four_fields(spaced(a, b, c, d)) == Some((a, b, c, d)),
{
    let s2 = c + seq![' '] + d;
    let s1 = b + seq![' '] + s2;
    lemma_field(a, s1);
    lemma_field(b, s2);
    lemma_field(c, d);
    assert(spaced(a, b, c, d) =~= a + seq![' '] + s1);
}

proof fn lemma_decimal_fits(n: nat)
    ensures
        fits_in_field(decimal(n)),
        fits_in_line(decimal(n)),
        trimmed(decimal(n)) == decimal(n),
{
    text::lemma_decimal(n);
    let s = decimal(n);
    assert forall|c: char| s.contains(c) implies text::is_digit(c) by {
        let i = choose|i: int| 0 <= i < s.len() && s[i] == c;
        assert(text::is_digit(s[i]));
    }
    assert(s.contains(s.last()) && s.contains(s[0]));
}

proof fn lemma_mark_lines(
    state: StateView,
    marks: Seq<Seq<char>>,
    read: spec_fn(Seq<char>) -> Option<Single>,
)
    requires
        forall|i: int| 0 <= i < marks.len() ==> (#[trigger] marks[i]).len() > 0,
    ensures
        with_lines(state, marks.map_values(|id: Seq<char>| mark_line(id)), read) == (StateView {
            migrated: state.migrated.union(marks.to_set()),
            ..state
        }),
    decreases marks.len(),
{
    let ls = marks.map_values(|id: Seq<char>| mark_line(id));
    let goal = StateView { migrated: state.migrated.union(marks.to_set()), ..state };
    if marks.len() == 0 {
        assert(with_lines(state, ls, read) =~= goal);
    } else {
        let m = marks.drop_last();
        assert forall|i: int| 0 <= i < m.len() implies (#[trigger] m[i]).len() > 0 by {
            assert(m[i] == marks[i]);
        }
        lemma_mark_lines(state, m, read);
        assert(ls.drop_last() == m.map_values(|id: Seq<char>| mark_line(id)));
        let id = marks.last();
        lemma_tag('M', id);
        assert(seq!['M'][0] == 'M' && seq!['D'][0] == 'D' && seq!['B'][0] == 'B' && seq!['X'][0] == 'X');
        assert(marks.to_set() =~= m.to_set().insert(id)) by {
            assert forall|k: Seq<char>| marks.contains(k) == (m.contains(k) || k == id) by {
                if marks.contains(k) {
                    let i = choose|i: int| 0 <= i < marks.len() && marks[i] == k;
                    if i < m.len() {
                        assert(m[i] == k);
                    }
                }
                if m.contains(k) {
                    let i = choose|i: int| 0 <= i < m.len() && m[i] == k;
                    assert(marks[i] == k);
                }
                assert(marks[marks.len() - 1] == id);
            }
        }
        assert(with_lines(state, ls, read) =~= goal);
    }
}

proof fn lemma_ducker_lines(
    state: StateView,
    duckers: Seq<DuckerView>,
    write: spec_fn(Single) -> Seq<char>,
    read: spec_fn(Seq<char>) -> Option<Single>,
)
    requires
        forall|i: int|
            0 <= i < duckers.len() ==> fits_in_field((#[trigger] duckers[i]).instance)
                && reads_back(duckers[i].ratio, write, read),
    ensures
        with_lines(state, duckers.map_values(|d: DuckerView| ducker_line(d, write)), read) == (
        StateView { duckers: state.duckers + duckers, ..state }),
    decreases duckers.len(),
{
    let ls = duckers.map_values(|d: DuckerView| ducker_line(d, write));
    let goal = StateView { duckers: state.duckers + duckers, ..state };
    if duckers.len() == 0 {
        assert(with_lines(state, ls, read) =~= goal);
    } else {
        let m = duckers.drop_last();
        assert forall|i: int| 0 <= i < m.len() implies fits_in_field((#[trigger] m[i]).instance)
            && reads_back(m[i].ratio, write, read) by {
            assert(m[i] == duckers[i]);
        }
        lemma_ducker_lines(state, m, write, read);
        assert(ls.drop_last() == m.map_values(|d: DuckerView| ducker_line(d, write)));
        let d = duckers[duckers.len() - 1];
        lemma_ducker_line(with_lines(state, ls.drop_last(), read), d, write, read);
        assert(ls.last() == ducker_line(d, write));
        assert(with_lines(state, ls, read) =~= goal);
    }
}

/// Reading the line of a ducker enters it.
proof fn lemma_ducker_line(
    state: StateView,
    d: DuckerView,
    write: spec_fn(Single) -> Seq<char>,
    read: spec_fn(Seq<char>) -> Option<Single>,
)
    requires
        fits_in_field(d.instance),
        reads_back(d.ratio, write, read),
    ensures
        with_line(state, ducker_line(d, write), read) == state.with_ducker(d),
{
    let pid = decimal(d.pid as nat);
    let heartbeat = decimal(d.heartbeat_ms as nat);
    lemma_decimal_fits(d.pid as nat);
    lemma_decimal_fits(d.heartbeat_ms as nat);
    text::law_decimal_reads_back(d.pid as nat, u32::MAX as nat);
    text::law_decimal_reads_back(d.heartbeat_ms as nat, u64::MAX as nat);
    lemma_spaced(d.instance, pid, heartbeat, write(d.ratio));
    lemma_tag('D', spaced(d.instance, pid, heartbeat, write(d.ratio)));
}

/// Reading the line of a baseline puts it on record.
proof fn lemma_baseline_line(
    state: StateView,
    id: Seq<char>,
    b: Baseline,
    write: spec_fn(Single) -> Seq<char>,
    read: spec_fn(Seq<char>) -> Option<Single>,
)
    requires
        reads_back(b.volume, write, read),
        reads_back(b.ducked_to, write, read),
    ensures
        with_line(state, baseline_line(id, b, write), read) == state.with_baseline(id, b),
{
    lemma_decimal_fits(b.last_seen_ms as nat);
    text::law_decimal_reads_back(b.last_seen_ms as nat, u64::MAX as nat);
    let seen = decimal(b.last_seen_ms as nat);
    lemma_spaced(write(b.volume), write(b.ducked_to), seen, id);
    lemma_tag('B', spaced(write(b.volume), write(b.ducked_to), seen, id));
    assert(seq!['D'][0] == 'D' && seq!['B'][0] == 'B');
}

/// The baselines of `state` at the identifiers `ids`, put on the record of `base`.
spec fn recorded_at(
    base: StateView,
    baselines: Map<Seq<char>, Baseline>,
    ids: Seq<Seq<char>>,
) -> StateView {
    StateView {
        baselines: Map::new(
            |id: Seq<char>| base.baselines.contains_key(id) || ids.contains(id),
            |id: Seq<char>|
                if ids.contains(id) {
                    baselines[id]
                } else {
                    base.baselines[id]
                },
        ),
        ..base
    }
}

proof fn lemma_recorded_grows(
    base: StateView,
    baselines: Map<Seq<char>, Baseline>,
    ids: Seq<Seq<char>>,
)
    requires
        ids.len() > 0,
    ensures
        recorded_at(base, baselines, ids) == recorded_at(
            base,
            baselines,
            ids.drop_last(),
        ).with_baseline(ids.last(), baselines[ids.last()]),
{
    let m = ids.drop_last();
    assert forall|k: Seq<char>| ids.contains(k) == (m.contains(k) || k == ids.last()) by {
        if ids.contains(k) {
            let i = choose|i: int| 0 <= i < ids.len() && ids[i] == k;
            if i < m.len() {
                assert(m[i] == k);
            }
        }
        if m.contains(k) {
            let i = choose|i: int| 0 <= i < m.len() && m[i] == k;
            assert(ids[i] == k);
        }
    }
    let grown = recorded_at(base, baselines, m).with_baseline(ids.last(), baselines[ids.last()]);
    assert(recorded_at(base, baselines, ids).baselines =~= grown.baselines);
}

proof fn lemma_baseline_lines(
    base: StateView,
    baselines: Map<Seq<char>, Baseline>,
    ids: Seq<Seq<char>>,
    write: spec_fn(Single) -> Seq<char>,
    read: spec_fn(Seq<char>) -> Option<Single>,
)
    requires
        forall|i: int|
            #![trigger ids[i]]
            0 <= i < ids.len() ==> reads_back(baselines[ids[i]].volume, write, read)
                && reads_back(baselines[ids[i]].ducked_to, write, read),
    ensures
        with_lines(
            base,
            ids.map_values(|id: Seq<char>| baseline_line(id, baselines[id], write)),
            read,
        ) == recorded_at(base, baselines, ids),
    decreases ids.len(),
{
    let ls = ids.map_values(|id: Seq<char>| baseline_line(id, baselines[id], write));
    let goal = recorded_at(base, baselines, ids);
    if ids.len() == 0 {
        assert(with_lines(base, ls, read) =~= goal);
    } else {
        let m = ids.drop_last();
        assert forall|i: int| #![trigger m[i]] 0 <= i < m.len() implies reads_back(
            baselines[m[i]].volume,
            write,
            read,
        ) && reads_back(baselines[m[i]].ducked_to, write, read) by {
            assert(m[i] == ids[i]);
        }
        lemma_baseline_lines(base, baselines, m, write, read);
        assert(ls.drop_last() == m.map_values(
            |id: Seq<char>| baseline_line(id, baselines[id], write),
        ));
        let id = ids[ids.len() - 1];
        lemma_baseline_line(recorded_at(base, baselines, m), id, baselines[id], write, read);
        lemma_recorded_grows(base, baselines, ids);
        assert(ls.last() == baseline_line(id, baselines[id], write));
    }
}

/// Reading the file of a state gives the state, whatever order its lines were
/// written in.
pub proof fn law_file_reads_back(
    content: Seq<char>,
    state: StateView,
    write: spec_fn(Single) -> Seq<char>,
    read: spec_fn(Seq<char>) -> Option<Single>,
)
    requires
        is_file_of(content, state, write),
        can_be_written(state, write, read),
    ensures
        parsed(content, read) == state,
{
    let (marks, ids) = choose|marks: Seq<Seq<char>>, ids: Seq<Seq<char>>|
        orders(marks, state.migrated) && orders(ids, state.baselines.dom()) && content
            == terminated(#[trigger] file_lines(state, marks, ids, write));
    let ls = file_lines(state, marks, ids, write);
    let first = seq![seq!['V', ' ', '2']];
    let dl = deadline_lines(state.migration_deadline_ms);
    let ml = marks.map_values(|id: Seq<char>| mark_line(id));
    let dls = state.duckers.map_values(|d: DuckerView| ducker_line(d, write));
    let bls = ids.map_values(|id: Seq<char>| baseline_line(id, state.baselines[id], write));
    assert forall|i: int| 0 <= i < marks.len() implies state.migrated.contains(#[trigger] marks[i]) by {
        assert(marks.to_set().contains(marks[i]));
    }
    assert forall|i: int| 0 <= i < ids.len() implies state.baselines.contains_key(#[trigger] ids[i]) by {
        assert(ids.to_set().contains(ids[i]));
    }
    assert forall|i: int| 0 <= i < ls.len() implies fits_in_line(#[trigger] ls[i]) by {
        lemma_line_fits(state, marks, ids, write, read, i);
    }
    lemma_lines_of_terminated(ls);
    let blank = StateView::blank();
    reveal_with_fuel(with_lines, 2);
    assert(first.drop_last() == Seq::<Seq<char>>::empty());
    lemma_tag('V', seq!['2']);
    assert(seq!['V', ' '] + seq!['2'] =~= seq!['V', ' ', '2']);
    assert(seq!['V'][0] == 'V' && seq!['M'][0] == 'M' && seq!['D'][0] == 'D' && seq!['B'][0] == 'B'
        && seq!['X'][0] == 'X');
    assert(with_lines(blank, first, read) == blank);
    let s1 = StateView { migration_deadline_ms: state.migration_deadline_ms, ..blank };
    assert(with_lines(blank, dl, read) == s1) by {
        match state.migration_deadline_ms {
            Some(deadline) => {
                let digits = decimal(deadline as nat);
                lemma_tag('X', digits);
                lemma_decimal_fits(deadline as nat);
                text::law_decimal_reads_back(deadline as nat, u64::MAX as nat);
                assert(dl.drop_last() == Seq::<Seq<char>>::empty());
            },
            None => {},
        }
    }
    lemma_with_lines_add(blank, first, dl, read);
    lemma_with_lines_add(blank, first + dl, ml, read);
    lemma_with_lines_add(blank, first + dl + ml, dls, read);
    lemma_with_lines_add(blank, first + dl + ml + dls, bls, read);
    lemma_mark_lines(s1, marks, read);
    let s2 = StateView { migrated: s1.migrated.union(marks.to_set()), ..s1 };
    assert(s2.migrated =~= state.migrated);
    lemma_ducker_lines(s2, state.duckers, write, read);
    let s3 = StateView { duckers: s2.duckers + state.duckers, ..s2 };
    assert(s3.duckers =~= state.duckers);
    lemma_baseline_lines(s3, state.baselines, ids, write, read);
    let s4 = recorded_at(s3, state.baselines, ids);
    assert(s4.baselines =~= state.baselines) by {
        assert forall|id: Seq<char>| ids.contains(id) == state.baselines.contains_key(id) by {
            assert(ids.to_set().contains(id) == ids.contains(id));
        }
    }
    assert(s4 =~= state);
}

proof fn lemma_join_fits(a: Seq<char>, b: Seq<char>)
    requires
        !a.contains('\n'),
        a.len() > 0,
        a.last() != '\r',
        fits_in_line(b),
    ensures
        fits_in_line(a + b),
{
    let s = a + b;
    assert forall|i: int| 0 <= i < s.len() implies #[trigger] s[i] != '\n' by {
        if i < a.len() {
            assert(a.contains(a[i]));
        } else {
            assert(b.contains(b[i - a.len()]));
        }
    }
    if b.len() > 0 {
        assert(s.last() == b.last());
    } else {
        assert(s =~= a);
    }
}

proof fn lemma_no_feed(a: Seq<char>, b: Seq<char>)
    requires
        !a.contains('\n'),
        !b.contains('\n'),
    ensures
        !(a + b).contains('\n'),
{
    let s = a + b;
    assert forall|i: int| 0 <= i < s.len() implies #[trigger] s[i] != '\n' by {
        if i < a.len() {
            assert(a.contains(a[i]));
        } else {
            assert(b.contains(b[i - a.len()]));
        }
    }
}

proof fn lemma_spaced_fits(tag: char, a: Seq<char>, b: Seq<char>, c: Seq<char>, d: Seq<char>)
    requires
        tag != '\n',
        !a.contains('\n'),
        !b.contains('\n'),
        !c.contains('\n'),
        fits_in_line(d),
    ensures
        fits_in_line(seq![tag, ' '] + spaced(a, b, c, d)),
{
    let sp = seq![' '];
    let t = seq![tag, ' '];
    assert(!sp.contains('\n'));
    assert(!t.contains('\n'));
    lemma_no_feed(t, a);
    lemma_no_feed(t + a, sp);
    lemma_no_feed(t + a + sp, b);
    lemma_no_feed(t + a + sp + b, sp);
    lemma_no_feed(t + a + sp + b + sp, c);
    lemma_no_feed(t + a + sp + b + sp + c, sp);
    lemma_join_fits(t + a + sp + b + sp + c + sp, d);
    assert(t + spaced(a, b, c, d) =~= t + a + sp + b + sp + c + sp + d);
}

proof fn lemma_line_fits(
    state: StateView,
    marks: Seq<Seq<char>>,
    ids: Seq<Seq<char>>,
    write: spec_fn(Single) -> Seq<char>,
    read: spec_fn(Seq<char>) -> Option<Single>,
    i: int,
)
    requires
        can_be_written(state, write, read),
        forall|j: int| 0 <= j < marks.len() ==> state.migrated.contains(#[trigger] marks[j]),
        forall|j: int| 0 <= j < ids.len() ==> state.baselines.contains_key(#[trigger] ids[j]),
        0 <= i < file_lines(state, marks, ids, write).len(),
    ensures
        fits_in_line(file_lines(state, marks, ids, write)[i]),
{
    let dl = deadline_lines(state.migration_deadline_ms);
    let a = 1 + dl.len();
    let b = a + marks.len();
    let c = b + state.duckers.len();
    if i == 0 {
        assert(!seq!['V', ' ', '2'].contains('\n'));
    } else if i < a {
        let deadline = state.migration_deadline_ms->0;
        lemma_decimal_fits(deadline as nat);
        assert(!seq!['X', ' '].contains('\n'));
        lemma_join_fits(seq!['X', ' '], decimal(deadline as nat));
    } else if i < b {
        assert(!seq!['M', ' '].contains('\n'));
        assert(state.migrated.contains(marks[i - a]));
        lemma_join_fits(seq!['M', ' '], marks[i - a]);
    } else if i < c {
        let d = state.duckers[i - b];
        lemma_decimal_fits(d.pid as nat);
        lemma_decimal_fits(d.heartbeat_ms as nat);
        lemma_spaced_fits(
            'D',
            d.instance,
            decimal(d.pid as nat),
            decimal(d.heartbeat_ms as nat),
            write(d.ratio),
        );
    } else {
        let id = ids[i - c];
        assert(state.baselines.contains_key(id));
        let bl = state.baselines[id];
        lemma_decimal_fits(bl.last_seen_ms as nat);
        lemma_spaced_fits(
            'B',
            write(bl.volume),
            write(bl.ducked_to),
            decimal(bl.last_seen_ms as nat),
            id,
        );
    }
}

/// What a caller's functions have to do for the contracts to speak of them: to read and to
/// write numbers as `read` and `write` say, and no more.
pub proof fn law_number_functions_are_taken_as_they_are<
    F: Fn(&str) -> Option<Single>,
    G: Fn(Single) -> String,
>(single: F, text: G, read: spec_fn(Seq<char>) -> Option<Single>, write: spec_fn(Single) -> Seq<char>)
    requires
        forall|t: &str, r: Option<Single>| #[trigger] call_ensures(single, (t,), r) ==> r == read(
            t@,
        ),
        forall|x: Single, r: String| #[trigger] call_ensures(text, (x,), r) ==> r@ == write(x),
    ensures
        reads_as(single, read),
        writes_as(text, write),
{
}

/// The format that all processes share: the version first, then the deadline, who was
/// repaired, the duckers in their order and the baselines, a line each, with the session
/// identifier last in its line, and a line feed behind every line.
pub proof fn law_file_format(
    state: StateView,
    marks: Seq<Seq<char>>,
    ids: Seq<Seq<char>>,
    write: spec_fn(Single) -> Seq<char>,
    line: Seq<char>,
    ls: Seq<Seq<char>>,
)
    ensures
        ({
            let all = file_lines(state, marks, ids, write);
            let x: int = if state.migration_deadline_ms is Some {
                1
            } else {
                0
            };
            let m = 1 + x;
            let d = m + marks.len();
            let b = d + state.duckers.len();
            &&& all.len() == b + ids.len()
            &&& all[0] == seq!['V', ' ', '2']
            &&& state.migration_deadline_ms matches Some(deadline) ==> all[1] == seq!['X', ' ']
                + decimal(deadline as nat)
            &&& forall|i: int|
                0 <= i < marks.len() ==> all[m + i] == seq!['M', ' '] + #[trigger] marks[i]
            &&& forall|i: int|
                0 <= i < state.duckers.len() ==> all[d + i] == seq!['D', ' '] + (
                #[trigger] state.duckers[i]).instance + seq![' '] + decimal(
                    state.duckers[i].pid as nat,
                ) + seq![' '] + decimal(state.duckers[i].heartbeat_ms as nat) + seq![' '] + write(
                    state.duckers[i].ratio,
                )
            &&& forall|i: int|
                0 <= i < ids.len() ==> all[b + i] == seq!['B', ' '] + write(
                    state.baselines[#[trigger] ids[i]].volume,
                ) + seq![' '] + write(state.baselines[ids[i]].ducked_to) + seq![' '] + decimal(
                    state.baselines[ids[i]].last_seen_ms as nat,
                ) + seq![' '] + ids[i]
        }),
        terminated(Seq::<Seq<char>>::empty()) == Seq::<char>::empty(),
        terminated(ls.push(line)) == terminated(ls) + line + seq!['\n'],
{
    let all = file_lines(state, marks, ids, write);
    assert(ls.push(line).drop_last() == ls);
    assert(terminated(ls.push(line)) =~= terminated(ls) + line + seq!['\n']);
    let x: int = if state.migration_deadline_ms is Some {
        1
    } else {
        0
    };
    let d = 1 + x + marks.len();
    let b = d + state.duckers.len();
    assert forall|i: int| 0 <= i < state.duckers.len() implies all[d + i] == seq!['D', ' '] + (
    #[trigger] state.duckers[i]).instance + seq![' '] + decimal(state.duckers[i].pid as nat)
        + seq![' '] + decimal(state.duckers[i].heartbeat_ms as nat) + seq![' '] + write(
        state.duckers[i].ratio,
    ) by {
        assert(all[d + i] == ducker_line(state.duckers[i], write));
        assert(ducker_line(state.duckers[i], write) =~= seq!['D', ' '] + state.duckers[i].instance
            + seq![' '] + decimal(state.duckers[i].pid as nat) + seq![' '] + decimal(
            state.duckers[i].heartbeat_ms as nat,
        ) + seq![' '] + write(state.duckers[i].ratio));
    }
    assert forall|i: int| 0 <= i < ids.len() implies all[b + i] == seq!['B', ' '] + write(
        state.baselines[#[trigger] ids[i]].volume,
    ) + seq![' '] + write(state.baselines[ids[i]].ducked_to) + seq![' '] + decimal(
        state.baselines[ids[i]].last_seen_ms as nat,
    ) + seq![' '] + ids[i] by {
        let r = state.baselines[ids[i]];
        assert(all[b + i] == baseline_line(ids[i], r, write));
        assert(baseline_line(ids[i], r, write) =~= seq!['B', ' '] + write(r.volume) + seq![' ']
            + write(r.ducked_to) + seq![' '] + decimal(r.last_seen_ms as nat) + seq![' '] + ids[i]);
    }
}

/// How lines are read, whoever wrote them: a ducker is entered after those before it, a
/// baseline takes the place of one with its identifier, a deadline that of the one before,
/// and an identifier that was repaired is noted. White space around a deadline is passed
/// over.
pub proof fn law_lines_are_read(
    state: StateView,
    d: DuckerView,
    id: Seq<char>,
    b: Baseline,
    deadline: Seq<char>,
    write: spec_fn(Single) -> Seq<char>,
    read: spec_fn(Seq<char>) -> Option<Single>,
)
    requires
        fits_in_field(d.instance),
        reads_back(d.ratio, write, read),
        reads_back(b.volume, write, read),
        reads_back(b.ducked_to, write, read),
    ensures
        with_line(
            state,
            seq!['D', ' '] + (d.instance + seq![' '] + decimal(d.pid as nat) + seq![' '] + decimal(
                d.heartbeat_ms as nat,
            ) + seq![' '] + write(d.ratio)),
            read,
        ) == (StateView { duckers: state.duckers.push(d), ..state }),
        with_line(
            state,
            seq!['B', ' '] + (write(b.volume) + seq![' '] + write(b.ducked_to) + seq![' ']
                + decimal(b.last_seen_ms as nat) + seq![' '] + id),
            read,
        ) == (StateView { baselines: state.baselines.insert(id, b), ..state }),
        id.len() > 0 ==> with_line(state, seq!['M', ' '] + id, read) == (StateView {
            migrated: state.migrated.insert(id),
            ..state
        }),
        with_line(state, seq!['X', ' '] + deadline, read) == (match number(
            trimmed(deadline),
            u64::MAX as nat,
        ) {
            Some(n) => StateView { migration_deadline_ms: Some(n as u64), ..state },
            None => state,
        }),
        with_lines(state, Seq::<Seq<char>>::empty(), read) == state,
{
    lemma_ducker_line(state, d, write, read);
    lemma_baseline_line(state, id, b, write, read);
    assert(d.instance + seq![' '] + decimal(d.pid as nat) + seq![' '] + decimal(
        d.heartbeat_ms as nat,
    ) + seq![' '] + write(d.ratio) =~= spaced(
        d.instance,
        decimal(d.pid as nat),
        decimal(d.heartbeat_ms as nat),
        write(d.ratio),
    ));
    assert(write(b.volume) + seq![' '] + write(b.ducked_to) + seq![' '] + decimal(
        b.last_seen_ms as nat,
    ) + seq![' '] + id =~= spaced(
        write(b.volume),
        write(b.ducked_to),
        decimal(b.last_seen_ms as nat),
        id,
    ));
    lemma_tag('M', id);
    lemma_tag('X', deadline);
    assert(seq!['D'][0] == 'D' && seq!['B'][0] == 'B' && seq!['X'][0] == 'X' && seq!['M'][0] == 'M');
}

/// What the fields of a line mean, whatever stands in them: the numbers of a ducker and of a
/// baseline are read one by one, and where one cannot be read the line says nothing. The
/// last field is all that follows, blanks among it.
pub proof fn law_fields_are_read(
    state: StateView,
    a: Seq<char>,
    b: Seq<char>,
    c: Seq<char>,
    d: Seq<char>,
    read: spec_fn(Seq<char>) -> Option<Single>,
)
    requires
        !a.contains(' '),
        !b.contains(' '),
        !c.contains(' '),
    ensures
        ({
            let line = seq!['D', ' '] + (a + seq![' '] + b + seq![' '] + c + seq![' '] + d);
            let pid = number(b, 0xffff_ffff);
            let heartbeat = number(c, 0xffff_ffff_ffff_ffff);
            let ratio = read(d);
            if pid is Some && heartbeat is Some && ratio is Some {
                with_line(state, line, read) == (StateView {
                    duckers: state.duckers.push(
                        DuckerView {
                            instance: a,
                            pid: pid->0 as u32,
                            heartbeat_ms: heartbeat->0 as u64,
                            ratio: ratio->0,
                        },
                    ),
                    ..state
                })
            } else {
                with_line(state, line, read) == state
            }
        }),
        ({
            let line = seq!['B', ' '] + (a + seq![' '] + b + seq![' '] + c + seq![' '] + d);
            let volume = read(a);
            let ducked_to = read(b);
            let seen = number(c, 0xffff_ffff_ffff_ffff);
            if volume is Some && ducked_to is Some && seen is Some {
                with_line(state, line, read) == (StateView {
                    baselines: state.baselines.insert(
                        d,
                        Baseline {
                            volume: volume->0,
                            ducked_to: ducked_to->0,
                            last_seen_ms: seen->0 as u64,
                        },
                    ),
                    ..state
                })
            } else {
                with_line(state, line, read) == state
            }
        }),
{
    let rest = a + seq![' '] + b + seq![' '] + c + seq![' '] + d;
    assert(rest =~= spaced(a, b, c, d));
    lemma_spaced(a, b, c, d);
    lemma_tag('D', rest);
    lemma_tag('B', rest);
    assert(seq!['D'][0] == 'D' && seq!['B'][0] == 'B');
}

/// The letters that mark the lines of four fields.
pub open spec fn is_record_tag(t: char) -> bool {
    t == 'D' || t == 'B'
}

/// A ducker or a baseline with no more than three fields, an empty identifier, or a line
/// that is marked by anything but the four letters, says nothing.
pub proof fn law_other_lines_say_nothing(
    state: StateView,
    tag: Seq<char>,
    rest: Seq<char>,
    a: Seq<char>,
    b: Seq<char>,
    c: Seq<char>,
    read: spec_fn(Seq<char>) -> Option<Single>,
)
    requires
        !tag.contains(' '),
        !a.contains(' '),
        !b.contains(' '),
        !c.contains(' '),
    ensures
        tag != seq!['D'] && tag != seq!['B'] && tag != seq!['X'] && tag != seq!['M'] ==> with_line(
            state,
            tag + seq![' '] + rest,
            read,
        ) == state && with_line(state, tag, read) == state,
        forall|t: char| #[trigger]
            is_record_tag(t) ==> {
                &&& with_line(state, seq![t, ' '] + a, read) == state
                &&& with_line(state, seq![t, ' '] + (a + seq![' '] + b), read) == state
                &&& with_line(state, seq![t, ' '] + (a + seq![' '] + b + seq![' '] + c), read)
                    == state
            },
        with_line(state, seq!['M', ' '], read) == state,
{
    lemma_field(tag, rest);
    lemma_no_field(tag);
    assert forall|t: char| #[trigger] is_record_tag(t) implies {
        &&& with_line(state, seq![t, ' '] + a, read) == state
        &&& with_line(state, seq![t, ' '] + (a + seq![' '] + b), read) == state
        &&& with_line(state, seq![t, ' '] + (a + seq![' '] + b + seq![' '] + c), read) == state
    } by {
        let two = a + seq![' '] + b;
        let three = a + seq![' '] + b + seq![' '] + c;
        let later = b + seq![' '] + c;
        assert(three =~= a + seq![' '] + later);
        lemma_field(a, b);
        lemma_field(a, later);
        lemma_field(b, c);
        lemma_no_field(a);
        lemma_no_field(b);
        lemma_no_field(c);
        lemma_tag(t, a);
        lemma_tag(t, two);
        lemma_tag(t, three);
        assert(seq!['D'][0] == 'D' && seq!['B'][0] == 'B' && seq![t][0] == t);
    }
    lemma_tag('M', Seq::empty());
    assert(seq!['M', ' '] =~= seq!['M', ' '] + Seq::<char>::empty());
    assert(seq!['D'][0] == 'D' && seq!['B'][0] == 'B' && seq!['X'][0] == 'X' && seq!['M'][0] == 'M');
}

/// A text without a blank is one field.
proof fn lemma_no_field(s: Seq<char>)
    requires
        !s.contains(' '),
    ensures
        head(s, ' ') == s,
        after(s, ' ') is None,
{
    text::lemma_find(s, ' ');
    if find(s, ' ') < s.len() {
        assert(s.contains(s[find(s, ' ')]));
    }
}

/// A file is read line by line, from a state that holds nothing, each line on what those
/// before it gave.
pub proof fn law_file_is_read_line_by_line(
    content: Seq<char>,
    ls: Seq<Seq<char>>,
    line: Seq<char>,
    state: StateView,
    read: spec_fn(Seq<char>) -> Option<Single>,
)
    ensures
        parsed(content, read) == with_lines(StateView::blank(), lines(content), read),
        with_lines(state, ls.push(line), read) == with_line(
            with_lines(state, ls, read),
            line,
            read,
        ),
{
    assert(ls.push(line).drop_last() == ls);
}

/// Whatever the order in which the repaired identifiers and the baselines are taken, what
/// is written is a file of the state, as long as each is written once.
pub proof fn law_any_order_will_do(
    state: StateView,
    marks: Seq<Seq<char>>,
    ids: Seq<Seq<char>>,
    write: spec_fn(Single) -> Seq<char>,
)
    requires
        marks.no_duplicates(),
        ids.no_duplicates(),
        forall|id: Seq<char>| #[trigger] marks.contains(id) <==> state.migrated.contains(id),
        forall|id: Seq<char>| #[trigger] ids.contains(id) <==> state.baselines.contains_key(id),
    ensures
        is_file_of(terminated(file_lines(state, marks, ids, write)), state, write),
{
    assert(marks.to_set() =~= state.migrated);
    assert(ids.to_set() =~= state.baselines.dom());
    assert(orders(marks, state.migrated) && orders(ids, state.baselines.dom()));
}

} // verus!
