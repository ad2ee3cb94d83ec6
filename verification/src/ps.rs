//! What `ps` prints.

use vstd::prelude::*;

use crate::terminal::{row_views, ProcRow, RowView};
use crate::text::{
    chars_of, is_white_space, law_trimmed_text_has_no_space_around_it,
    law_trimming_takes_the_space_around, owned_view, same_text,
    text_view, trim_range, trim_text, trimmed, trimmed_start, white_space,
};

verus! {

/// White space, as a property to stop at.
pub open spec fn at_white_space() -> spec_fn(char) -> bool {
    |c: char| white_space(c)
}

/// The end of a line, as a property to stop at.
pub open spec fn at_line_end() -> spec_fn(char) -> bool {
    |c: char| c == '\n'
}

/// How many characters stand in front of the first one to stop at.
pub open spec fn span(s: Seq<char>, stop: spec_fn(char) -> bool) -> nat
    decreases s.len(),
{
    if s.len() == 0 || stop(s[0]) {
        0
    } else {
        1 + span(s.skip(1), stop)
    }
}

/// A decimal digit.
pub open spec fn digit(c: char) -> bool {
    '0' <= c <= '9'
}

/// The number that decimal digits stand for.
pub open spec fn decimal(digits: Seq<char>) -> nat
    decreases digits.len(),
{
    if digits.len() == 0 {
        0
    } else {
        decimal(digits.drop_last()) * 10 + (digits.last() as int - '0' as int) as nat
    }
}

/// The pid that a word stands for: decimal digits, in range.
pub open spec fn pid_of(word: Seq<char>) -> Option<u32> {
    if word.len() > 0 && (forall|i: int| 0 <= i < word.len() ==> digit(#[trigger] word[i]))
        && decimal(word) <= u32::MAX {
        Some(decimal(word) as u32)
    } else {
        None
    }
}

/// What follows the first word of `s`, without the white space in between.
pub open spec fn after_word(s: Seq<char>) -> Seq<char> {
    trimmed_start(s.skip(span(s, at_white_space()) as int))
}

/// The first word of `s`.
pub open spec fn first_word(s: Seq<char>) -> Seq<char> {
    s.take(span(s, at_white_space()) as int)
}

/// The process that a line stands for: a pid, that of the parent, and behind them the
/// executable, whose path may hold spaces.
pub open spec fn line_row(line: Seq<char>) -> Option<RowView> {
    let start = trimmed_start(line);
    let second = after_word(start);
    let comm = trimmed(second.skip(span(second, at_white_space()) as int));
    match (pid_of(first_word(start)), pid_of(first_word(second))) {
        (Some(pid), Some(ppid)) => if comm.len() > 0 {
            Some(RowView { pid, ppid, comm })
        } else {
            None
        },
        _ => None,
    }
}

/// The processes that the lines of an output stand for, in order; other lines are passed over.
pub open spec fn output_rows(output: Seq<char>) -> Seq<RowView>
    decreases output.len(),
{
    if output.len() == 0 {
        Seq::empty()
    } else {
        let n = span(output, at_line_end()) as int;
        let rest = if n < output.len() {
            output_rows(output.skip(n + 1))
        } else {
            Seq::empty()
        };
        match line_row(output.take(n)) {
            Some(row) => seq![row] + rest,
            None => rest,
        }
    }
}

proof fn lemma_span(s: Seq<char>, stop: spec_fn(char) -> bool, n: int)
    requires
        0 <= n <= s.len(),
        forall|i: int| 0 <= i < n ==> !stop(#[trigger] s[i]),
        n < s.len() ==> stop(s[n]),
    ensures
        span(s, stop) == n,
    decreases n,
{
    if n > 0 {
        assert(!stop(s[0]));
        let rest = s.skip(1);
        assert forall|i: int| 0 <= i < n - 1 implies !stop(#[trigger] rest[i]) by {
            assert(rest[i] == s[i + 1]);
        }
        lemma_span(rest, stop, n - 1);
    }
}

proof fn lemma_decimal_grows(digits: Seq<char>, n: int)
    requires
        0 <= n <= digits.len(),
    ensures
        decimal(digits.take(n)) <= decimal(digits),
    decreases digits.len() - n,
{
    if n < digits.len() {
        assert(digits.drop_last().take(n) =~= digits.take(n));
        lemma_decimal_grows(digits.drop_last(), n);
    } else {
        assert(digits.take(n) =~= digits);
    }
}

/// The end of the word that starts at `from`.
fn word_end(chars: &Vec<char>, from: usize, to: usize) -> (end: usize)
    requires
        from <= to <= chars.len(),
    ensures
        from <= end <= to,
        end - from == span(chars@.subrange(from as int, to as int), at_white_space()),
{
    let ghost word = chars@.subrange(from as int, to as int);
    let mut end: usize = from;
    while end < to && !is_white_space(chars[end])
        invariant
            from <= end <= to <= chars.len(),
            word == chars@.subrange(from as int, to as int),
            forall|i: int| 0 <= i < end - from ==> !white_space(#[trigger] word[i]),
        decreases to - end,
    {
        end = end + 1;
    }
    proof {
        if end < to {
            assert(word[end - from] == chars@[end as int]);
        }
        lemma_span(word, at_white_space(), end - from);
    }
    end
}

/// The end of the line that starts at `from`.
fn line_end(chars: &Vec<char>, from: usize) -> (end: usize)
    requires
        from <= chars.len(),
    ensures
        from <= end <= chars.len(),
        end - from == span(chars@.skip(from as int), at_line_end()),
{
    let ghost line = chars@.skip(from as int);
    let mut end: usize = from;
    while end < chars.len() && chars[end] != '\n'
        invariant
            from <= end <= chars.len(),
            line == chars@.skip(from as int),
            forall|i: int| 0 <= i < end - from ==> #[trigger] line[i] != '\n',
        decreases chars.len() - end,
    {
        end = end + 1;
    }
    proof {
        if end < chars.len() {
            assert(line[end - from] == chars@[end as int]);
        }
        lemma_span(line, at_line_end(), end - from);
    }
    end
}

/// Where the white space that starts at `from` ends.
fn skip_white_space(chars: &Vec<char>, from: usize, to: usize) -> (start: usize)
    requires
        from <= to <= chars.len(),
    ensures
        from <= start <= to,
        chars@.subrange(start as int, to as int) == trimmed_start(
            chars@.subrange(from as int, to as int),
        ),
{
    let ghost whole = chars@.subrange(from as int, to as int);
    let mut start: usize = from;
    while start < to && is_white_space(chars[start])
        invariant
            from <= start <= to <= chars.len(),
            trimmed_start(whole) == trimmed_start(chars@.subrange(start as int, to as int)),
        decreases to - start,
    {
        let ghost rest = chars@.subrange(start as int, to as int);
        assert(rest.first() == chars@[start as int]);
        assert(rest.drop_first() =~= chars@.subrange(start + 1, to as int));
        start = start + 1;
    }
    proof {
        let rest = chars@.subrange(start as int, to as int);
        if start < to {
            assert(rest.first() == chars@[start as int]);
        }
    }
    start
}

/// The pid that `chars[from..to]` stands for.
fn parse_pid(chars: &Vec<char>, from: usize, to: usize) -> (pid: Option<u32>)
    requires
        from <= to <= chars.len(),
    ensures
        pid == pid_of(chars@.subrange(from as int, to as int)),
{
    let ghost word = chars@.subrange(from as int, to as int);
    if from == to {
        return None;
    }
    let mut value: u64 = 0;
    let mut i: usize = from;
    while i < to
        invariant
            from <= i <= to <= chars.len(),
            word == chars@.subrange(from as int, to as int),
            forall|j: int| 0 <= j < i - from ==> digit(#[trigger] word[j]),
            value == decimal(word.take(i - from)),
            value <= u32::MAX,
        decreases to - i,
    {
        let c: char = chars[i];
        assert(word[i - from] == c);
        if c < '0' || c > '9' {
            return None;
        }
        let ghost longer = word.take(i + 1 - from);
        assert(longer.drop_last() =~= word.take(i - from));
        assert(longer.last() == c);
        value = value * 10 + (c as u64 - '0' as u64);
        assert(value == decimal(longer));
        if value > u32::MAX as u64 {
            proof {
                lemma_decimal_grows(word, i + 1 - from);
            }
            return None;
        }
        i = i + 1;
    }
    assert(word.take(to - from) =~= word);
    Some(value as u32)
}

/// The process that the line `chars[from..to]` stands for.
fn parse_line(chars: &Vec<char>, from: usize, to: usize) -> (row: Option<ProcRow>)
    requires
        from <= to <= chars.len(),
    ensures
        match row {
            Some(row) => line_row(chars@.subrange(from as int, to as int)) == Some(
                RowView { pid: row.pid, ppid: row.ppid, comm: row.comm@ },
            ),
            None => line_row(chars@.subrange(from as int, to as int)) is None,
        },
{
    let first = skip_white_space(chars, from, to);
    let first_end = word_end(chars, first, to);
    let second = skip_white_space(chars, first_end, to);
    let second_end = word_end(chars, second, to);
    proof {
        let start = chars@.subrange(first as int, to as int);
        let next = chars@.subrange(second as int, to as int);
        assert(start.take(first_end - first) =~= chars@.subrange(first as int, first_end as int));
        assert(start.skip(first_end - first) =~= chars@.subrange(first_end as int, to as int));
        assert(next.take(second_end - second) =~= chars@.subrange(
            second as int,
            second_end as int,
        ));
        assert(next.skip(second_end - second) =~= chars@.subrange(second_end as int, to as int));
    }
    let pid = parse_pid(chars, first, first_end);
    let ppid = parse_pid(chars, second, second_end);
    let comm = trim_range(chars, second_end, to);
    match (pid, ppid) {
        (Some(pid), Some(ppid)) => {
            if comm.as_str().is_empty() {
                None
            } else {
                Some(ProcRow { pid, ppid, comm })
            }
        },
        _ => None,
    }
}

/// The processes in the output of `ps -axo pid=,ppid=,comm=`.
pub fn parse_ps_rows(output: &str) -> (rows: Vec<ProcRow>)
    ensures
        row_views(rows@) == output_rows(output@),
{
    let chars = chars_of(output);
    let mut rows: Vec<ProcRow> = Vec::new();
    let mut from: usize = 0;
    assert(chars@.skip(0) =~= output@);
    assert(row_views(rows@) + output_rows(chars@) =~= output_rows(chars@));
    while from < chars.len()
        invariant
            from <= chars.len(),
            row_views(rows@) + output_rows(chars@.skip(from as int)) == output_rows(chars@),
            chars@ == output@,
        decreases chars.len() - from,
    {
        let end = line_end(&chars, from);
        let ghost here = chars@.skip(from as int);
        let ghost before = row_views(rows@);
        let ghost rest = if end < chars.len() {
            output_rows(chars@.skip(end + 1))
        } else {
            Seq::<RowView>::empty()
        };
        proof {
            assert(here.take(end - from) =~= chars@.subrange(from as int, end as int));
            if end < chars.len() {
                assert(here.skip(end - from + 1) =~= chars@.skip(end + 1));
            }
        }
        if let Some(row) = parse_line(&chars, from, end) {
            let ghost view = RowView { pid: row.pid, ppid: row.ppid, comm: row.comm@ };
            rows.push(row);
            assert(row_views(rows@) =~= before.push(view));
            assert(before.push(view) + rest =~= before + (seq![view] + rest));
        }
        assert(row_views(rows@) + rest == output_rows(chars@));
        if end == chars.len() {
            assert(row_views(rows@) + rest =~= row_views(rows@));
            return rows;
        }
        from = end + 1;
    }
    assert(row_views(rows@) + Seq::<RowView>::empty() =~= row_views(rows@));
    rows
}

/// The controlling tty that an output names, if it names one: "??" stands for none.
pub open spec fn tty_in(output: Option<Seq<char>>) -> Option<Seq<char>> {
    match output {
        Some(text) => if trimmed(text).len() == 0 || trimmed(text) == "??"@ {
            None
        } else {
            Some(trimmed(text))
        },
        None => None,
    }
}

/// The controlling tty (e.g. "ttys003") in the output of `ps -o tty= -p <pid>`, if there is
/// one; there is none where `ps` could not be run.
pub fn controlling_tty(output: Option<&str>) -> (tty: Option<String>)
    ensures
        owned_view(tty) == tty_in(text_view(output)),
{
    match output {
        Some(text) => {
            let name = trim_text(text);
            if name.as_str().is_empty() || same_text(name.as_str(), "??") {
                None
            } else {
                Some(name)
            }
        },
        None => None,
    }
}


/// A tty is a name: neither nothing nor the mark for nothing, and without white space around it.
pub proof fn law_tty_is_a_name(output: Option<Seq<char>>)
    ensures
        tty_in(output) matches Some(name) ==> {
            &&& name.len() > 0
            &&& name != "??"@
            &&& !white_space(name.first())
            &&& !white_space(name.last())
        },
{
    if let Some(text) = output {
        law_trimmed_text_has_no_space_around_it(text);
    }
}

proof fn lemma_span_of_word(word: Seq<char>, rest: Seq<char>)
    requires
        forall|i: int| 0 <= i < word.len() ==> !white_space(#[trigger] word[i]),
        rest.len() > 0 ==> white_space(rest[0]),
    ensures
        first_word(word + rest) == word,
        (word + rest).skip(span(word + rest, at_white_space()) as int) == rest,
{
    let s = word + rest;
    assert forall|i: int| 0 <= i < word.len() implies !at_white_space()(#[trigger] s[i]) by {
        assert(s[i] == word[i]);
    }
    if rest.len() > 0 {
        assert(s[word.len() as int] == rest[0]);
    }
    lemma_span(s, at_white_space(), word.len() as int);
    assert(s.take(word.len() as int) =~= word);
    assert(s.skip(word.len() as int) =~= rest);
}

/// A line is a process exactly when its first two words are pids and something follows them:
/// the first is its own, the second that of its parent, and all the rest, without the white
/// space around it, is the executable. How much white space stands in front and between does
/// not matter.
pub proof fn law_a_line_is_two_pids_and_an_executable(
    front: Seq<char>,
    first: Seq<char>,
    gap: Seq<char>,
    second: Seq<char>,
    rest: Seq<char>,
)
    requires
        forall|i: int| 0 <= i < front.len() ==> white_space(#[trigger] front[i]),
        forall|i: int| 0 <= i < first.len() ==> !white_space(#[trigger] first[i]),
        forall|i: int| 0 <= i < gap.len() ==> white_space(#[trigger] gap[i]),
        forall|i: int| 0 <= i < second.len() ==> !white_space(#[trigger] second[i]),
        first.len() > 0,
        gap.len() > 0,
        second.len() > 0,
        rest.len() > 0 ==> white_space(rest[0]),
    ensures
        line_row(front + first + gap + second + rest) == match (pid_of(first), pid_of(second)) {
            (Some(pid), Some(ppid)) => if trimmed(rest).len() > 0 {
                Some(RowView { pid, ppid, comm: trimmed(rest) })
            } else {
                None
            },
            _ => None,
        },
{
    let line = front + first + gap + second + rest;
    let tail = second + rest;
    let start = first + (gap + tail);
    assert(line =~= front + start);
    law_space_in_front_is_skipped(front, start);
    assert(trimmed_start(line) == start);
    assert((gap + tail)[0] == gap[0]);
    lemma_span_of_word(first, gap + tail);
    law_space_in_front_is_skipped(gap, tail);
    assert(after_word(start) == tail);
    lemma_span_of_word(second, rest);
}

/// A line with fewer than two words is no process.
pub proof fn law_a_line_of_one_word_is_no_process(
    front: Seq<char>,
    word: Seq<char>,
    back: Seq<char>,
)
    requires
        forall|i: int| 0 <= i < front.len() ==> white_space(#[trigger] front[i]),
        forall|i: int| 0 <= i < word.len() ==> !white_space(#[trigger] word[i]),
        forall|i: int| 0 <= i < back.len() ==> white_space(#[trigger] back[i]),
    ensures
        line_row(front + word + back) is None,
{
    let line = front + word + back;
    let empty = Seq::<char>::empty();
    law_space_in_front_is_skipped(back, empty);
    assert(back + empty =~= back);
    if word.len() > 0 {
        assert(line =~= front + (word + back));
        law_space_in_front_is_skipped(front, word + back);
        lemma_span_of_word(word, back);
        assert(after_word(word + back) == empty);
    } else {
        let space = front + back;
        assert(line =~= space + empty);
        law_space_in_front_is_skipped(space, empty);
        assert(empty.skip(0) =~= empty);
        assert(after_word(empty) == empty);
    }
    assert(first_word(empty).len() == 0);
}

/// White space in front of something else is skipped, and nothing more is.
pub proof fn law_space_in_front_is_skipped(space: Seq<char>, rest: Seq<char>)
    requires
        forall|i: int| 0 <= i < space.len() ==> white_space(#[trigger] space[i]),
        rest.len() > 0 ==> !white_space(rest[0]),
    ensures
        trimmed_start(space + rest) == rest,
    decreases space.len(),
{
    let whole = space + rest;
    if space.len() > 0 {
        let less = space.drop_first();
        assert forall|i: int| 0 <= i < less.len() implies white_space(#[trigger] less[i]) by {
            assert(less[i] == space[i + 1]);
        }
        law_space_in_front_is_skipped(less, rest);
        assert(whole.first() == space[0]);
        assert(whole.drop_first() =~= less + rest);
    } else {
        assert(whole =~= rest);
    }
}

/// An output is read line by line, in order, whether or not its last line is ended: each line
/// gives its process, if it is one, and has no effect on the others.
pub proof fn law_an_output_is_read_line_by_line(line: Seq<char>, rest: Seq<char>)
    requires
        !line.contains('\n'),
    ensures
        output_rows(line + seq!['\n'] + rest) == output_rows(line) + output_rows(rest),
        line_row(line) matches Some(row) ==> output_rows(line) == seq![row],
        line_row(line) is None ==> output_rows(line).len() == 0,
        output_rows(Seq::empty()).len() == 0,
{
    let empty = Seq::<RowView>::empty();
    let output = line + seq!['\n'] + rest;
    let n = line.len() as int;
    assert forall|i: int| 0 <= i < n implies !at_line_end()(#[trigger] output[i]) by {
        assert(output[i] == line[i]);
        assert(line.contains(line[i]));
    }
    assert(output[n] == '\n');
    lemma_span(output, at_line_end(), n);
    assert(output.take(n) =~= line);
    assert(output.skip(n + 1) =~= rest);
    assert forall|i: int| 0 <= i < n implies !at_line_end()(#[trigger] line[i]) by {
        assert(line.contains(line[i]));
    }
    lemma_span(line, at_line_end(), n);
    assert(line.take(n) =~= line);
    assert(empty + output_rows(rest) =~= output_rows(rest));
    if let Some(row) = line_row(line) {
        assert(seq![row] + empty =~= seq![row]);
    }
    if n == 0 {
        law_a_line_of_one_word_is_no_process(line, line, line);
        assert(line + line + line =~= line);
    }
}

/// The pid that a word stands for grows digit by digit: one digit stands for itself, a further
/// one counts once and what stood before it ten times, and a number out of range, an empty word
/// and anything but a digit stand for no pid.
pub proof fn law_pids_are_decimal_numbers(word: Seq<char>, c: char)
    ensures
        pid_of(Seq::empty()) is None,
        '0' <= c <= '9' ==> pid_of(seq![c]) == Some((c as int - '0' as int) as u32),
        !('0' <= c <= '9') ==> pid_of(word.push(c)) is None,
        word.len() > 0 && pid_of(word) is None ==> pid_of(word.push(c)) is None,
        '0' <= c <= '9' ==> (pid_of(word) matches Some(n) ==> {
            let longer = n * 10 + (c as int - '0' as int);
            pid_of(word.push(c)) == if longer <= 0xffff_ffff {
                Some(longer as u32)
            } else {
                None
            }
        }),
{
    let longer = word.push(c);
    assert(longer.drop_last() =~= word);
    assert(longer[word.len() as int] == c);
    let one = seq![c];
    assert(one.drop_last() =~= Seq::<char>::empty());
    reveal_with_fuel(decimal, 2);
    if word.len() > 0 && pid_of(word) is None {
        if exists|i: int| 0 <= i < word.len() && !digit(#[trigger] word[i]) {
            let i = choose|i: int| 0 <= i < word.len() && !digit(#[trigger] word[i]);
            assert(longer[i] == word[i]);
        } else {
            lemma_decimal_grows(longer, word.len() as int);
            assert(longer.take(word.len() as int) =~= word);
        }
    }
    if pid_of(word) is Some && digit(c) {
        assert forall|i: int| 0 <= i < longer.len() implies digit(#[trigger] longer[i]) by {
            if i < word.len() {
                assert(longer[i] == word[i]);
            }
        }
    }
}

/// A tty that was printed with white space around it is that tty. Nothing, nothing but white
/// space and the mark for nothing are none.
pub proof fn law_a_printed_tty_is_read_back(front: Seq<char>, name: Seq<char>, back: Seq<char>)
    requires
        forall|i: int| 0 <= i < front.len() ==> white_space(#[trigger] front[i]),
        forall|i: int| 0 <= i < back.len() ==> white_space(#[trigger] back[i]),
        name.len() > 0 ==> !white_space(name.first()) && !white_space(name.last()),
    ensures
        name.len() > 0 && name != "??"@ ==> tty_in(Some(front + name + back)) == Some(name),
        name.len() == 0 || name == "??"@ ==> tty_in(Some(front + name + back)) is None,
        tty_in(None) is None,
{
    law_trimming_takes_the_space_around(front, name, back);
}

} // verus!
