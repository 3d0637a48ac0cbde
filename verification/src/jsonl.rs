//! Append-only logs of one JSON record per line, and what opening one after a
//! crash has to do.
//!
//! A crash can leave only the final append unterminated. Such a tail is cut
//! off; a complete final record that lost only its newline gets it back. A
//! malformed record anywhere else is damage, and the log does not open.
//!
//! What a line's bytes spell is for the caller to say: it reads the lines that
//! [`record_lines`] finds, in order, up to the first that spells no record, and
//! hands over the records it read.

use vstd::prelude::*;

verus! {

/// What has to be done to the file before the next append.
#[derive(Clone, Copy, Debug, PartialEq, Eq, Structural)]
pub enum Healing {
    /// Nothing.
    Nothing,
    /// Cut the file to this many bytes.
    Truncate { valid_len: usize },
    /// Append a newline.
    Terminate,
}

/// A malformed record that is not a torn tail, by the position of its line.
#[derive(Clone, Copy, Debug, PartialEq, Eq, Structural)]
pub struct Damage {
    pub at: usize,
}

/// The bytes that count as white space in a line.
pub open spec fn is_blank_byte(b: u8) -> bool {
    b == 32 || b == 9 || b == 10 || b == 12 || b == 13
}

pub open spec fn is_blank(line: Seq<u8>) -> bool {
    forall|i: int| 0 <= i < line.len() ==> is_blank_byte(#[trigger] line[i])
}

/// Where the line that begins at `from` ends: behind its newline, or at the
/// end of the contents.
pub open spec fn line_end(contents: Seq<u8>, from: int) -> int
    decreases contents.len() - from,
{
    if from < 0 || from >= contents.len() {
        contents.len() as int
    } else if contents[from] == 10 {
        from + 1
    } else {
        line_end(contents, from + 1)
    }
}

pub proof fn lemma_line_end(contents: Seq<u8>, from: int)
    requires
        0 <= from < contents.len(),
    ensures
        from < line_end(contents, from) <= contents.len(),
    decreases contents.len() - from,
{
    reveal_with_fuel(line_end, 2);
    if contents[from] != 10 && from + 1 < contents.len() {
        lemma_line_end(contents, from + 1);
    }
}

/// The lines that hold more than white space, from position `from` on: where
/// each begins, and where it ends.
pub open spec fn lines_from(contents: Seq<u8>, from: int) -> Seq<(int, int)>
    decreases contents.len() - from,
    via lines_from_decreases
{
    if from < 0 || from >= contents.len() {
        seq![]
    } else {
        let to = line_end(contents, from);
        let rest = lines_from(contents, to);
        if is_blank(contents.subrange(from, to)) {
            rest
        } else {
            seq![(from, to)] + rest
        }
    }
}

#[via_fn]
proof fn lines_from_decreases(contents: Seq<u8>, from: int) {
    if 0 <= from < contents.len() {
        lemma_line_end(contents, from);
    }
}

/// The lines of a log that hold a record, or ought to.
pub open spec fn lines_of(contents: Seq<u8>) -> Seq<(int, int)> {
    lines_from(contents, 0)
}

pub open spec fn is_terminated(contents: Seq<u8>) -> bool {
    contents.len() > 0 && contents.last() == 10
}

/// What opening a log comes to where its first `read` lines spell records and
/// the next one, if there is one, does not: what has to be done to the file, or
/// where the damage is.
pub open spec fn recovery(contents: Seq<u8>, read: int) -> Result<Healing, int> {
    let lines = lines_of(contents);
    if read >= lines.len() {
        Ok(
            if contents.len() > 0 && !is_terminated(contents) {
                Healing::Terminate
            } else {
                Healing::Nothing
            },
        )
    } else if lines[read].1 == contents.len() && !is_terminated(contents) {
        Ok(Healing::Truncate { valid_len: lines[read].0 as usize })
    } else {
        Err(lines[read].0)
    }
}

fn blank_line(contents: &[u8], from: usize, to: usize) -> (r: bool)
    requires
        from <= to <= contents@.len(),
    ensures
        r == is_blank(contents@.subrange(from as int, to as int)),
{
    let ghost line = contents@.subrange(from as int, to as int);
    let mut i: usize = from;
    while i < to
        invariant
            from <= i <= to <= contents@.len(),
            line == contents@.subrange(from as int, to as int),
            forall|k: int| 0 <= k < i - from ==> is_blank_byte(#[trigger] line[k]),
        decreases to - i,
    {
        let b: u8 = contents[i];
        assert(line[i - from] == b);
        if !(b == 32 || b == 9 || b == 10 || b == 12 || b == 13) {
            return false;
        }
        i += 1;
    }
    true
}

fn find_line_end(contents: &[u8], from: usize) -> (r: usize)
    requires
        from < contents@.len(),
    ensures
        r == line_end(contents@, from as int),
        from < r <= contents@.len(),
{
    let mut i: usize = from;
    while i < contents.len()
        invariant
            from <= i <= contents@.len(),
            from < contents@.len(),
            line_end(contents@, i as int) == line_end(contents@, from as int),
        decreases contents@.len() - i,
    {
        if contents[i] == 10 {
            return i + 1;
        }
        i += 1;
    }
    i
}

pub open spec fn extents(lines: Seq<(usize, usize)>) -> Seq<(int, int)> {
    Seq::new(lines.len(), |i: int| (lines[i].0 as int, lines[i].1 as int))
}

/// The lines of a log that hold a record, or ought to: where each begins, and
/// where it ends, its newline included.
pub fn record_lines(contents: &[u8]) -> (r: Vec<(usize, usize)>)
    ensures
        extents(r@) == lines_of(contents@),
        forall|i: int| 0 <= i < r@.len() ==> (#[trigger] r@[i]).0 < r@[i].1 <= contents@.len(),
{
    let mut out: Vec<(usize, usize)> = Vec::new();
    let mut from: usize = 0;
    assert(extents(out@) + lines_from(contents@, 0) =~= lines_of(contents@));
    while from < contents.len()
        invariant
            from <= contents@.len(),
            extents(out@) + lines_from(contents@, from as int) == lines_of(contents@),
            forall|i: int|
                0 <= i < out@.len() ==> (#[trigger] out@[i]).0 < out@[i].1 <= contents@.len(),
        decreases contents@.len() - from,
    {
        let to = find_line_end(contents, from);
        if !blank_line(contents, from, to) {
            let ghost before = extents(out@);
            out.push((from, to));
            assert(extents(out@) =~= before.push((from as int, to as int)));
            assert(extents(out@) + lines_from(contents@, to as int) =~= before + lines_from(
                contents@,
                from as int,
            ));
        }
        from = to;
    }
    assert(extents(out@) + lines_from(contents@, from as int) =~= extents(out@));
    out
}

/// What opening a log comes to, once `read` of its lines have been read and
/// the next one, if there is one, spelled no record.
pub fn recover(contents: &[u8], read: usize) -> (r: Result<Healing, Damage>)
    ensures
        match r {
            Ok(healing) => recovery(contents@, read as int) == Ok::<Healing, int>(healing),
            Err(damage) => recovery(contents@, read as int) == Err::<Healing, int>(
                damage.at as int,
            ),
        },
{
    let lines = record_lines(contents);
    assert(extents(lines@).len() == lines@.len());
    let terminated = contents.len() > 0 && contents[contents.len() - 1] == 10;
    if read >= lines.len() {
        if contents.len() > 0 && !terminated {
            Ok(Healing::Terminate)
        } else {
            Ok(Healing::Nothing)
        }
    } else {
        let (from, to) = lines[read];
        assert(extents(lines@)[read as int] == (from as int, to as int));
        if to == contents.len() && !terminated {
            Ok(Healing::Truncate { valid_len: from })
        } else {
            Err(Damage { at: from })
        }
    }
}

// ----------------------------------------------------------------------- laws

/// The first line ends the same way in a cut of the contents, as long as the
/// cut does not fall inside it.
proof fn lemma_line_end_cut(contents: Seq<u8>, cut: int, from: int)
    requires
        0 <= from < cut <= contents.len(),
        cut == contents.len() || contents[cut - 1] == 10,
    ensures
        line_end(contents.take(cut), from) == line_end(contents, from),
        line_end(contents, from) <= cut,
    decreases contents.len() - from,
{
    reveal_with_fuel(line_end, 2);
    assert(contents.take(cut)[from] == contents[from]);
    if contents[from] != 10 {
        if from + 1 < cut {
            lemma_line_end_cut(contents, cut, from + 1);
        }
    }
}

proof fn lemma_line_break(contents: Seq<u8>, from: int)
    requires
        0 <= from < contents.len(),
    ensures
        contents[line_end(contents, from) - 1] == 10 || line_end(contents, from) == contents.len(),
    decreases contents.len() - from,
{
    reveal_with_fuel(line_end, 2);
    if contents[from] != 10 && from + 1 < contents.len() {
        lemma_line_break(contents, from + 1);
    }
}

proof fn lemma_lines_within(contents: Seq<u8>, from: int, i: int)
    requires
        0 <= from <= contents.len(),
        from == 0 || contents[from - 1] == 10,
        0 <= i < lines_from(contents, from).len(),
    ensures
        ({
            let line = lines_from(contents, from)[i];
            &&& from <= line.0 < line.1 <= contents.len()
            &&& line.0 == 0 || contents[line.0 - 1] == 10
            &&& line.1 == line_end(contents, line.0)
        }),
    decreases contents.len() - from,
{
    if from < contents.len() {
        lemma_line_end(contents, from);
        lemma_line_break(contents, from);
        let to = line_end(contents, from);
        if is_blank(contents.subrange(from, to)) {
            lemma_lines_within(contents, to, i);
        } else if i > 0 {
            assert(lines_from(contents, from)[i] == lines_from(contents, to)[i - 1]);
            lemma_lines_within(contents, to, i - 1);
        }
    }
}

/// Cutting a log behind a newline keeps the lines before the cut.
proof fn lemma_lines_cut(contents: Seq<u8>, cut: int, from: int)
    requires
        0 <= from <= cut <= contents.len(),
        cut == 0 || contents[cut - 1] == 10,
    ensures
        lines_from(contents, from) == lines_from(contents.take(cut), from) + lines_from(
            contents,
            cut,
        ),
    decreases contents.len() - from,
{
    let kept = contents.take(cut);
    if from < cut {
        lemma_line_end(contents, from);
        lemma_line_end_cut(contents, cut, from);
        let to = line_end(contents, from);
        assert(kept.subrange(from, to) =~= contents.subrange(from, to));
        lemma_lines_cut(contents, cut, to);
        assert(lines_from(contents, from) =~= lines_from(kept, from) + lines_from(contents, cut));
    } else {
        assert(lines_from(kept, from) =~= seq![]);
        assert(lines_from(contents, from) =~= lines_from(kept, from) + lines_from(contents, cut));
    }
}

/// Once healed of a torn tail, a log holds exactly the lines that were read,
/// and needs no further healing.
pub proof fn law_a_healed_log_replays_the_same(contents: Seq<u8>, read: int)
    requires
        contents.len() <= usize::MAX,
        0 <= read,
        recovery(contents, read) matches Ok(Healing::Truncate { .. }),
    ensures
        ({
            let healed = contents.take(recovery(contents, read)->Ok_0->valid_len as int);
            &&& lines_of(healed) == lines_of(contents).take(read)
            &&& forall|i: int|
                0 <= i < read ==> {
                    let line = #[trigger] lines_of(contents)[i];
                    healed.subrange(line.0, line.1) == contents.subrange(line.0, line.1)
                }
            &&& recovery(healed, read) == Ok::<Healing, int>(Healing::Nothing)
        }),
{
    let lines = lines_of(contents);
    lemma_lines_within(contents, 0, read);
    let cut = lines[read].0;
    let healed = contents.take(cut);
    lemma_lines_cut(contents, cut, 0);
    let before = lines_of(healed);
    let behind = lines_from(contents, cut);
    if before.len() > read {
        lemma_lines_within(healed, 0, read);
        assert(lines[read] == before[read]);
    }
    if before.len() < read {
        assert(lines[read] == behind[read - before.len()]);
        lemma_line_end(contents, cut);
        lemma_line_break(contents, cut);
        let to = line_end(contents, cut);
        lemma_lines_within(contents, cut, read - before.len());
        assert(behind[0] == lines[before.len() as int]);
        lemma_lines_ascend(contents, cut, 0, read - before.len());
        lemma_lines_within(contents, cut, 0);
    }
    assert(before =~= lines.take(read));
    assert forall|i: int| 0 <= i < read implies {
        let line = #[trigger] lines_of(contents)[i];
        healed.subrange(line.0, line.1) == contents.subrange(line.0, line.1)
    } by {
        let line = lines[i];
        assert(before[i] == line);
        lemma_lines_within(healed, 0, i);
        assert(healed.subrange(line.0, line.1) =~= contents.subrange(line.0, line.1));
    }
    assert(cut > 0 ==> healed.last() == 10);
}

proof fn lemma_lines_ascend(contents: Seq<u8>, from: int, i: int, j: int)
    requires
        0 <= from <= contents.len(),
        from == 0 || contents[from - 1] == 10,
        0 <= i < j < lines_from(contents, from).len(),
    ensures
        lines_from(contents, from)[i].1 <= lines_from(contents, from)[j].0,
    decreases contents.len() - from,
{
    if from < contents.len() {
        lemma_line_end(contents, from);
        lemma_line_break(contents, from);
        let to = line_end(contents, from);
        let rest = lines_from(contents, to);
        if is_blank(contents.subrange(from, to)) {
            lemma_lines_ascend(contents, to, i, j);
        } else {
            assert(lines_from(contents, from)[j] == rest[j - 1]);
            if i > 0 {
                assert(lines_from(contents, from)[i] == rest[i - 1]);
                lemma_lines_ascend(contents, to, i - 1, j - 1);
            } else {
                lemma_lines_within(contents, to, j - 1);
            }
        }
    }
}

/// Where a line ends once the log has got its last newline back.
pub open spec fn ended(contents: Seq<u8>, to: int) -> int {
    if to == contents.len() {
        to + 1
    } else {
        to
    }
}

/// The lines of a log once it has got its last newline back.
pub open spec fn all_ended(contents: Seq<u8>, lines: Seq<(int, int)>) -> Seq<(int, int)> {
    Seq::new(lines.len(), |i: int| (lines[i].0, ended(contents, lines[i].1)))
}

proof fn lemma_line_end_ended(contents: Seq<u8>, from: int)
    requires
        0 <= from < contents.len(),
        !is_terminated(contents),
    ensures
        line_end(contents.push(10), from) == ended(contents, line_end(contents, from)),
    decreases contents.len() - from,
{
    reveal_with_fuel(line_end, 3);
    let whole = contents.push(10);
    assert(whole[from] == contents[from]);
    if contents[from] != 10 {
        if from + 1 < contents.len() {
            lemma_line_end_ended(contents, from + 1);
        } else {
            assert(whole[from + 1] == 10);
        }
    }
}

proof fn lemma_lines_ended(contents: Seq<u8>, from: int)
    requires
        0 <= from < contents.len(),
        !is_terminated(contents),
    ensures
        lines_from(contents.push(10), from) == all_ended(contents, lines_from(contents, from)),
    decreases contents.len() - from,
{
    let whole = contents.push(10);
    let to = line_end(contents, from);
    lemma_line_end(contents, from);
    lemma_line_end_ended(contents, from);
    let line = contents.subrange(from, to);
    let after = whole.subrange(from, ended(contents, to));
    if to == contents.len() {
        assert(after =~= line.push(10));
        assert(lines_from(whole, to + 1) =~= seq![]);
        assert(lines_from(contents, to) =~= seq![]);
        assert(is_blank(line) == is_blank(after)) by {
            assert forall|i: int| 0 <= i < line.len() implies after[i] == #[trigger] line[i] by {}
            if is_blank(after) {
                assert forall|i: int| 0 <= i < line.len() implies is_blank_byte(
                    #[trigger] line[i],
                ) by {
                    assert(is_blank_byte(after[i]));
                }
            }
        }
    } else {
        assert(after =~= line);
        lemma_lines_ended(contents, to);
    }
    let rest = lines_from(contents, to);
    assert(lines_from(whole, ended(contents, to)) =~= all_ended(contents, rest));
    if !is_blank(line) {
        assert(lines_from(contents, from) == seq![(from, to)] + rest);
        assert(lines_from(whole, from) =~= seq![(from, ended(contents, to))] + all_ended(
            contents,
            rest,
        ));
    }
    assert(lines_from(whole, from) =~= all_ended(contents, lines_from(contents, from)));
}

/// A log that gets its last newline back holds the lines it held, the last of
/// them now ended, and needs no further healing.
pub proof fn law_a_terminated_log_replays_the_same(contents: Seq<u8>, read: int)
    requires
        recovery(contents, read) == Ok::<Healing, int>(Healing::Terminate),
    ensures
        lines_of(contents.push(10)) == all_ended(contents, lines_of(contents)),
        recovery(contents.push(10), read) == Ok::<Healing, int>(Healing::Nothing),
{
    lemma_lines_ended(contents, 0);
    assert(contents.push(10).last() == 10);
}

/// The bytes of a line of their own: more than white space, and no newline but
/// the last byte.
pub open spec fn is_line(bytes: Seq<u8>) -> bool {
    &&& bytes.len() > 0 && bytes.last() == 10
    &&& forall|i: int| 0 <= i < bytes.len() - 1 ==> #[trigger] bytes[i] != 10
    &&& !is_blank(bytes)
}

proof fn lemma_sole_line(contents: Seq<u8>, at: int, from: int)
    requires
        0 <= at <= from < contents.len(),
        is_line(contents.subrange(at, contents.len() as int)),
    ensures
        line_end(contents, from) == contents.len(),
    decreases contents.len() - from,
{
    reveal_with_fuel(line_end, 2);
    let line = contents.subrange(at, contents.len() as int);
    assert(line[from - at] == contents[from]);
    if from + 1 < contents.len() {
        lemma_sole_line(contents, at, from + 1);
    }
}

/// An append to a log that needs no healing is a line of its own: it is joined
/// to no line before it, and every line before it stays.
pub proof fn law_an_append_is_its_own_line(contents: Seq<u8>, appended: Seq<u8>)
    requires
        contents.len() == 0 || is_terminated(contents),
        is_line(appended),
    ensures
        lines_of(contents + appended) == lines_of(contents).push(
            (contents.len() as int, (contents.len() + appended.len()) as int),
        ),
        is_terminated(contents + appended),
{
    let all = contents + appended;
    let at = contents.len() as int;
    assert(all.take(at) =~= contents);
    assert(all.subrange(at, all.len() as int) =~= appended);
    lemma_lines_cut(all, at, 0);
    lemma_sole_line(all, at, at);
    assert(lines_from(all, all.len() as int) =~= seq![]);
    assert(lines_from(all, at) =~= seq![(at, all.len() as int)]);
    assert(lines_of(all) =~= lines_of(contents).push((at, all.len() as int)));
}

} // verus!
