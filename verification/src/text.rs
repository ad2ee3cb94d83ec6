//! Text as sequences of characters: searching, trimming and assembling.

use vstd::prelude::*;

verus! {

/// `String::push` puts one character behind the others and leaves those as they are.
pub assume_specification[ String::push ](s: &mut String, ch: char)
    ensures
        final(s)@ == old(s)@.push(ch),
;

/// What an optional text holds.
pub open spec fn text_view(text: Option<&str>) -> Option<Seq<char>> {
    match text {
        Some(text) => Some(text@),
        None => None,
    }
}

/// What an optional text holds.
pub open spec fn owned_view(text: Option<String>) -> Option<Seq<char>> {
    match text {
        Some(text) => Some(text@),
        None => None,
    }
}

/// What the texts hold.
pub open spec fn text_views(texts: Seq<String>) -> Seq<Seq<char>> {
    Seq::new(texts.len(), |i: int| texts[i]@)
}

/// The characters of `s`, in order.
pub fn chars_of(s: &str) -> (chars: Vec<char>)
    ensures
        chars@ == s@,
{
    let mut chars: Vec<char> = Vec::new();
    for c in it: s.chars()
        invariant
            it.seq() == s@,
            chars@ == s@.take(it.index()),
    {
        chars.push(c);
    }
    assert(s@.take(s@.len() as int) =~= s@);
    chars
}

/// The text made of `chars[from..to]`.
pub fn text_of(chars: &Vec<char>, from: usize, to: usize) -> (text: String)
    requires
        from <= to <= chars.len(),
    ensures
        text@ == chars@.subrange(from as int, to as int),
{
    let mut text = String::new();
    let mut i: usize = from;
    while i < to
        invariant
            from <= i <= to <= chars.len(),
            text@ == chars@.subrange(from as int, i as int),
        decreases to - i,
    {
        text.push(chars[i]);
        i = i + 1;
    }
    text
}


/// Two texts are the same when they hold the same characters in the same order.
pub fn same_text(a: &str, b: &str) -> (same: bool)
    ensures
        same == (a@ == b@),
{
    let a_chars = chars_of(a);
    let b_chars = chars_of(b);
    if a_chars.len() != b_chars.len() {
        return false;
    }
    let mut i: usize = 0;
    while i < a_chars.len()
        invariant
            i <= a_chars.len(),
            a_chars.len() == b_chars.len(),
            a_chars@ == a@,
            b_chars@ == b@,
            forall|j: int| 0 <= j < i ==> a@[j] == b@[j],
        decreases a_chars.len() - i,
    {
        if a_chars[i] != b_chars[i] {
            return false;
        }
        i = i + 1;
    }
    assert(a@ =~= b@);
    true
}

/// `needle` stands in `hay` at position `at`.
pub open spec fn occurs_at(hay: Seq<char>, needle: Seq<char>, at: int) -> bool {
    &&& 0 <= at
    &&& at + needle.len() <= hay.len()
    &&& hay.subrange(at, at + needle.len()) == needle
}

/// `needle` stands somewhere in `hay`.
pub open spec fn occurs_in(hay: Seq<char>, needle: Seq<char>) -> bool {
    exists|at: int| occurs_at(hay, needle, at)
}

/// `at` is the first position at which `needle` stands in `hay`.
pub open spec fn first_occurrence(hay: Seq<char>, needle: Seq<char>, at: int) -> bool {
    &&& occurs_at(hay, needle, at)
    &&& forall|before: int| 0 <= before < at ==> !occurs_at(hay, needle, before)
}

/// Whether `needle` stands in `hay` at `at`.
pub fn stands_at(hay: &Vec<char>, needle: &Vec<char>, at: usize) -> (stands: bool)
    requires
        at + needle.len() <= hay.len(),
    ensures
        stands == occurs_at(hay@, needle@, at as int),
{
    let mut i: usize = 0;
    while i < needle.len()
        invariant
            i <= needle.len(),
            at + needle.len() <= hay.len(),
            forall|j: int| 0 <= j < i ==> hay@[at + j] == needle@[j],
        decreases needle.len() - i,
    {
        if hay[at + i] != needle[i] {
            assert(hay@.subrange(at as int, at + needle.len())[i as int] != needle@[i as int]);
            return false;
        }
        i = i + 1;
    }
    assert(hay@.subrange(at as int, at + needle.len()) =~= needle@);
    true
}

/// The first position of `needle` in `hay`, counted in characters.
pub fn find_text(hay: &str, needle: &str) -> (found: Option<usize>)
    ensures
        match found {
            Some(at) => first_occurrence(hay@, needle@, at as int),
            None => !occurs_in(hay@, needle@),
        },
{
    let hay_chars = chars_of(hay);
    let needle_chars = chars_of(needle);
    if needle_chars.len() > hay_chars.len() {
        return None;
    }
    let last: usize = hay_chars.len() - needle_chars.len();
    let mut at: usize = 0;
    while at <= last
        invariant
            at <= last + 1,
            last == hay_chars.len() - needle_chars.len(),
            hay_chars.len() <= usize::MAX,
            hay_chars@ == hay@,
            needle_chars@ == needle@,
            forall|before: int| 0 <= before < at ==> !occurs_at(hay@, needle@, before),
        decreases last + 1 - at,
    {
        if stands_at(&hay_chars, &needle_chars, at) {
            return Some(at);
        }
        if at == last {
            return None;
        }
        at = at + 1;
    }
    None
}

/// Whether `needle` stands somewhere in `hay`.
pub fn contains_text(hay: &str, needle: &str) -> (contains: bool)
    ensures
        contains == occurs_in(hay@, needle@),
{
    match find_text(hay, needle) {
        Some(at) => {
            assert(occurs_at(hay@, needle@, at as int));
            true
        },
        None => false,
    }
}

/// Picks the characters other than `dropped`.
pub open spec fn other_than(dropped: char) -> spec_fn(char) -> bool {
    |c: char| c != dropped
}

/// `s` with every `dropped` taken out and the rest kept in order.
pub open spec fn without(s: Seq<char>, dropped: char) -> Seq<char> {
    s.filter(other_than(dropped))
}

/// `s` with every `dropped` taken out.
pub fn without_char(s: &str, dropped: char) -> (kept: String)
    ensures
        kept@ == without(s@, dropped),
{
    let chars = chars_of(s);
    let ghost keep = other_than(dropped);
    let mut kept = String::new();
    let mut i: usize = 0;
    proof {
        reveal(Seq::filter);
        assert(chars@.take(0).filter(keep) =~= Seq::<char>::empty());
    }
    while i < chars.len()
        invariant
            i <= chars.len(),
            keep == other_than(dropped),
            kept@ == chars@.take(i as int).filter(keep),
        decreases chars.len() - i,
    {
        proof {
            reveal(Seq::filter);
            assert(chars@.take(i + 1).drop_last() =~= chars@.take(i as int));
        }
        if chars[i] != dropped {
            kept.push(chars[i]);
        }
        i = i + 1;
    }
    assert(chars@.take(chars.len() as int) =~= s@);
    kept
}

/// The characters with the Unicode property White_Space.
pub open spec fn white_space(c: char) -> bool {
    ||| '\u{9}' <= c <= '\u{d}'
    ||| c == ' '
    ||| c == '\u{85}'
    ||| c == '\u{a0}'
    ||| c == '\u{1680}'
    ||| '\u{2000}' <= c <= '\u{200a}'
    ||| c == '\u{2028}'
    ||| c == '\u{2029}'
    ||| c == '\u{202f}'
    ||| c == '\u{205f}'
    ||| c == '\u{3000}'
}

/// Whether `c` has the Unicode property White_Space.
pub fn is_white_space(c: char) -> (white: bool)
    ensures
        white == white_space(c),
{
    ('\u{9}' <= c && c <= '\u{d}') || c == ' ' || c == '\u{85}' || c == '\u{a0}' || c == '\u{1680}'
        || ('\u{2000}' <= c && c <= '\u{200a}') || c == '\u{2028}' || c == '\u{2029}' || c
        == '\u{202f}' || c == '\u{205f}' || c == '\u{3000}'
}

/// `s` without the white space it starts with.
pub open spec fn trimmed_start(s: Seq<char>) -> Seq<char>
    decreases s.len(),
{
    if s.len() > 0 && white_space(s.first()) {
        trimmed_start(s.drop_first())
    } else {
        s
    }
}

/// `s` without the white space it ends with.
pub open spec fn trimmed_end(s: Seq<char>) -> Seq<char>
    decreases s.len(),
{
    if s.len() > 0 && white_space(s.last()) {
        trimmed_end(s.drop_last())
    } else {
        s
    }
}

/// `s` without the white space around it.
pub open spec fn trimmed(s: Seq<char>) -> Seq<char> {
    trimmed_end(trimmed_start(s))
}

/// The text of `chars[from..to]` without the white space around it.
pub fn trim_range(chars: &Vec<char>, from: usize, to: usize) -> (text: String)
    requires
        from <= to <= chars.len(),
    ensures
        text@ == trimmed(chars@.subrange(from as int, to as int)),
{
    let ghost whole = chars@.subrange(from as int, to as int);
    let mut start: usize = from;
    while start < to && is_white_space(chars[start])
        invariant
            from <= start <= to <= chars.len(),
            whole == chars@.subrange(from as int, to as int),
            trimmed_start(whole) == trimmed_start(chars@.subrange(start as int, to as int)),
        decreases to - start,
    {
        let ghost rest = chars@.subrange(start as int, to as int);
        assert(rest.drop_first() =~= chars@.subrange(start + 1, to as int));
        start = start + 1;
    }
    let ghost body = chars@.subrange(start as int, to as int);
    assert(trimmed_start(whole) == body) by {
        if start < to {
            assert(body.first() == chars@[start as int]);
        }
    }
    let mut end: usize = to;
    while start < end && is_white_space(chars[end - 1])
        invariant
            from <= start <= end <= to <= chars.len(),
            body == chars@.subrange(start as int, to as int),
            trimmed_end(body) == trimmed_end(chars@.subrange(start as int, end as int)),
        decreases end - start,
    {
        let ghost rest = chars@.subrange(start as int, end as int);
        assert(rest.drop_last() =~= chars@.subrange(start as int, end - 1));
        end = end - 1;
    }
    assert(trimmed_end(body) == chars@.subrange(start as int, end as int)) by {
        let rest = chars@.subrange(start as int, end as int);
        if start < end {
            assert(rest.last() == chars@[end - 1]);
        }
    }
    text_of(chars, start, end)
}

/// `s` without the white space around it.
pub fn trim_text(s: &str) -> (text: String)
    ensures
        text@ == trimmed(s@),
{
    let chars = chars_of(s);
    assert(chars@.subrange(0, chars.len() as int) =~= s@);
    trim_range(&chars, 0, chars.len())
}

/// Trimming leaves no white space at either end, and leaves a text without any there as it is.
pub proof fn law_trimmed_text_has_no_space_around_it(s: Seq<char>)
    ensures
        trimmed(s).len() > 0 ==> !white_space(trimmed(s).first()) && !white_space(
            trimmed(s).last(),
        ),
        s.len() > 0 && !white_space(s.first()) && !white_space(s.last()) ==> trimmed(s) == s,
{
    lemma_trimmed_start(s);
    lemma_trimmed_end(trimmed_start(s));
}

proof fn lemma_trimmed_start(s: Seq<char>)
    ensures
        trimmed_start(s).len() > 0 ==> !white_space(trimmed_start(s).first()),
    decreases s.len(),
{
    if s.len() > 0 && white_space(s.first()) {
        lemma_trimmed_start(s.drop_first());
    }
}

proof fn lemma_trimmed_end(s: Seq<char>)
    ensures
        trimmed_end(s).len() > 0 ==> !white_space(trimmed_end(s).last()) && trimmed_end(s).first()
            == s.first(),
    decreases s.len(),
{
    if s.len() > 0 && white_space(s.last()) {
        lemma_trimmed_end(s.drop_last());
    }
}

/// The position of the last `c` in `s`, or -1.
pub open spec fn last_position(s: Seq<char>, c: char) -> int
    decreases s.len(),
{
    if s.len() == 0 {
        -1
    } else if s.last() == c {
        s.len() - 1
    } else {
        last_position(s.drop_last(), c)
    }
}

/// `path` ends with a slash, or with a dot that stands for the directory itself.
pub open spec fn ends_idle(path: Seq<char>) -> bool {
    ||| path.len() > 0 && path.last() == '/'
    ||| path.len() > 1 && path.last() == '.' && path[path.len() - 2] == '/'
}

/// `path` up to the end of its last component.
pub open spec fn path_trunk(path: Seq<char>) -> Seq<char>
    decreases path.len(),
{
    if ends_idle(path) {
        path_trunk(path.drop_last())
    } else {
        path
    }
}

/// The last component of a slash-separated path; slashes, and dots that stand for the
/// directory itself, are passed over at its end.
pub open spec fn basename_of(path: Seq<char>) -> Seq<char> {
    let trunk = path_trunk(path);
    trunk.skip(last_position(trunk, '/') + 1)
}

/// The last component of a slash-separated path.
pub fn basename(path: &str) -> (name: String)
    ensures
        name@ == basename_of(path@),
{
    let chars = chars_of(path);
    let mut end: usize = chars.len();
    assert(chars@.take(end as int) =~= chars@);
    while end > 0 && (chars[end - 1] == '/' || (chars[end - 1] == '.' && end > 1 && chars[end - 2]
        == '/'))
        invariant
            end <= chars.len(),
            path_trunk(chars@) == path_trunk(chars@.take(end as int)),
        decreases end,
    {
        assert(chars@.take(end as int).drop_last() =~= chars@.take(end - 1));
        assert(ends_idle(chars@.take(end as int)));
        end = end - 1;
    }
    let ghost trunk = chars@.take(end as int);
    assert(path_trunk(chars@) == trunk);
    let mut start: usize = end;
    assert(trunk.take(start as int) =~= trunk);
    while start > 0 && chars[start - 1] != '/'
        invariant
            start <= end <= chars.len(),
            trunk == chars@.take(end as int),
            last_position(trunk, '/') == last_position(trunk.take(start as int), '/'),
        decreases start,
    {
        assert(trunk.take(start as int).drop_last() =~= trunk.take(start - 1));
        start = start - 1;
    }
    assert(last_position(trunk, '/') == start - 1);
    assert(trunk.skip(start as int) =~= chars@.subrange(start as int, end as int));
    text_of(&chars, start, end)
}


/// Optional and listed texts are seen as they are.
pub proof fn law_texts_are_seen_as_they_are(
    owned: String,
    borrowed: &str,
    texts: Seq<String>,
    i: int,
)
    requires
        0 <= i < texts.len(),
    ensures
        owned_view(Some(owned)) == Some(owned@),
        owned_view(None) is None,
        text_view(Some(borrowed)) == Some(borrowed@),
        text_view(None) is None,
        text_views(texts).len() == texts.len(),
        text_views(texts)[i] == texts[i]@,
{
}

/// A text occurs where it was put, and where it occurs the text around it can be split off.
pub proof fn law_an_occurrence_splits_the_text(
    before: Seq<char>,
    needle: Seq<char>,
    after: Seq<char>,
    hay: Seq<char>,
    at: int,
)
    ensures
        occurs_at(before + needle + after, needle, before.len() as int),
        occurs_in(before + needle + after, needle),
        occurs_at(hay, needle, at) ==> 0 <= at && at + needle.len() <= hay.len() && hay == hay.take(
            at,
        ) + needle + hay.skip(at + needle.len()),
{
    let whole = before + needle + after;
    assert(whole.subrange(before.len() as int, (before.len() + needle.len()) as int) =~= needle);
    assert(occurs_at(whole, needle, before.len() as int));
    if occurs_at(hay, needle, at) {
        assert(hay =~= hay.take(at) + hay.subrange(at, at + needle.len()) + hay.skip(
            at + needle.len(),
        ));
    }
}

/// A text occurs in another exactly when that one is made of something, the text, and something
/// more.
pub proof fn law_occurring_is_standing_between(hay: Seq<char>, needle: Seq<char>)
    ensures
        occurs_in(hay, needle) <==> exists|before: Seq<char>, after: Seq<char>|
            hay == #[trigger] (before + needle + after),
{
    if occurs_in(hay, needle) {
        let at = choose|at: int| occurs_at(hay, needle, at);
        law_an_occurrence_splits_the_text(hay, needle, hay, hay, at);
        let before = hay.take(at);
        let after = hay.skip(at + needle.len());
        assert(hay == before + needle + after);
    }
    if exists|before: Seq<char>, after: Seq<char>| hay == #[trigger] (before + needle + after) {
        let (before, after) = choose|before: Seq<char>, after: Seq<char>|
            hay == #[trigger] (before + needle + after);
        law_an_occurrence_splits_the_text(before, needle, after, hay, 0);
    }
}

/// The first occurrence is an occurrence, and every occurrence stands at it or behind it.
pub proof fn law_the_first_occurrence_comes_first(
    hay: Seq<char>,
    needle: Seq<char>,
    first: int,
    at: int,
)
    ensures
        first_occurrence(hay, needle, first) ==> occurs_at(hay, needle, first),
        first_occurrence(hay, needle, first) && occurs_at(hay, needle, at) ==> first <= at,
        occurs_at(hay, needle, first) && (forall|other: int|
            occurs_at(hay, needle, other) ==> first <= other) ==> first_occurrence(
            hay,
            needle,
            first,
        ),
{
}

/// Dropping a character works on each part of a text by itself: that character goes, and any
/// other stays.
pub proof fn law_dropping_works_part_by_part(
    a: Seq<char>,
    b: Seq<char>,
    c: char,
    dropped: char,
)
    ensures
        without(a + b, dropped) == without(a, dropped) + without(b, dropped),
        without(Seq::empty(), dropped) == Seq::<char>::empty(),
        without(seq![dropped], dropped) == Seq::<char>::empty(),
        c != dropped ==> without(seq![c], dropped) == seq![c],
    decreases b.len(),
{
    reveal(Seq::filter);
    reveal_with_fuel(Seq::filter, 2);
    assert(seq![c].drop_last() =~= Seq::<char>::empty());
    assert(seq![dropped].drop_last() =~= Seq::<char>::empty());
    assert(without(Seq::empty(), dropped) =~= Seq::<char>::empty());
    assert(without(seq![dropped], dropped) =~= Seq::<char>::empty());
    if c != dropped {
        assert(without(seq![c], dropped) =~= seq![c]);
    }
    if b.len() == 0 {
        assert(a + b =~= a);
        assert(without(b, dropped) =~= Seq::<char>::empty());
        assert(without(a, dropped) + Seq::<char>::empty() =~= without(a, dropped));
    } else {
        law_dropping_works_part_by_part(a, b.drop_last(), c, dropped);
        assert((a + b).drop_last() =~= a + b.drop_last());
        assert((a + b).last() == b.last());
        let kept = without(a, dropped) + without(b.drop_last(), dropped);
        assert(kept.push(b.last()) =~= without(a, dropped) + without(b.drop_last(), dropped).push(
            b.last(),
        ));
    }
}

/// Trimming takes exactly the white space around a text: with white space in front and behind,
/// what neither starts nor ends with any comes out, and of white space alone nothing is left.
pub proof fn law_trimming_takes_the_space_around(
    front: Seq<char>,
    core: Seq<char>,
    back: Seq<char>,
)
    requires
        forall|i: int| 0 <= i < front.len() ==> white_space(#[trigger] front[i]),
        forall|i: int| 0 <= i < back.len() ==> white_space(#[trigger] back[i]),
        core.len() > 0 ==> !white_space(core.first()) && !white_space(core.last()),
    ensures
        trimmed(front + core + back) == core,
        core.len() > 0 ==> trimmed_start(front + core + back) == core + back,
{
    let whole = front + core + back;
    lemma_trim_front(front, core + back);
    assert(whole =~= front + (core + back));
    if core.len() > 0 {
        assert((core + back).first() == core.first());
        assert(trimmed_start(whole) == core + back);
        lemma_trim_back(core, back);
    } else {
        assert(core + back =~= back);
        lemma_trim_front(back, core);
        assert(back + core =~= back);
        assert(trimmed(whole) =~= core);
    }
}

proof fn lemma_trim_front(front: Seq<char>, rest: Seq<char>)
    requires
        forall|i: int| 0 <= i < front.len() ==> white_space(#[trigger] front[i]),
    ensures
        trimmed_start(front + rest) == trimmed_start(rest),
    decreases front.len(),
{
    let whole = front + rest;
    if front.len() > 0 {
        let less = front.drop_first();
        assert forall|i: int| 0 <= i < less.len() implies white_space(#[trigger] less[i]) by {
            assert(less[i] == front[i + 1]);
        }
        lemma_trim_front(less, rest);
        assert(whole.first() == front[0]);
        assert(whole.drop_first() =~= less + rest);
    } else {
        assert(whole =~= rest);
    }
}

proof fn lemma_trim_back(core: Seq<char>, back: Seq<char>)
    requires
        core.len() > 0,
        !white_space(core.last()),
        forall|i: int| 0 <= i < back.len() ==> white_space(#[trigger] back[i]),
    ensures
        trimmed_end(core + back) == core,
    decreases back.len(),
{
    let whole = core + back;
    if back.len() > 0 {
        lemma_trim_back(core, back.drop_last());
        assert(whole.last() == back[back.len() - 1]);
        assert(whole.drop_last() =~= core + back.drop_last());
    } else {
        assert(whole =~= core);
    }
}

/// The last position of a character is where it stands with none of its kind behind it; there
/// is none exactly where the text does not hold it.
pub proof fn law_last_position(before: Seq<char>, after: Seq<char>, s: Seq<char>, c: char)
    ensures
        !after.contains(c) ==> last_position(before + seq![c] + after, c) == before.len(),
        last_position(s, c) == -1 <==> !s.contains(c),
        s.contains(c) ==> 0 <= last_position(s, c) < s.len() && s[last_position(s, c)] == c
            && !s.skip(last_position(s, c) + 1).contains(c),
    decreases after.len() + s.len(),
{
    let whole = before + seq![c] + after;
    if !after.contains(c) {
        if after.len() > 0 {
            let rest = after.drop_last();
            if rest.contains(c) {
                let i = choose|i: int| 0 <= i < rest.len() && rest[i] == c;
                assert(after[i] == c);
            }
            law_last_position(before, rest, Seq::empty(), c);
            assert(whole.last() == after[after.len() - 1]);
            assert(whole.drop_last() =~= before + seq![c] + rest);
        } else {
            assert(whole.last() == c);
        }
    }
    if s.len() > 0 {
        let rest = s.drop_last();
        law_last_position(Seq::empty(), Seq::empty(), rest, c);
        if s.last() == c {
            assert(s[s.len() - 1] == c);
            assert(s.skip(s.len() as int) =~= Seq::<char>::empty());
        } else {
            if s.contains(c) {
                let i = choose|i: int| 0 <= i < s.len() && s[i] == c;
                assert(rest[i] == c);
                let at = last_position(s, c);
                let tail = s.skip(at + 1);
                if tail.contains(c) {
                    let j = choose|j: int| 0 <= j < tail.len() && tail[j] == c;
                    assert(rest.skip(at + 1)[j] == c);
                }
            }
            if rest.contains(c) {
                let i = choose|i: int| 0 <= i < rest.len() && rest[i] == c;
                assert(s[i] == c);
            }
        }
    }
}

/// The last component of a path: a name without slash is its own, a directory in front of a
/// name does not change it, and neither does a slash, or a slash and a dot, behind.
pub proof fn law_basename_is_the_last_component(dir: Seq<char>, name: Seq<char>, path: Seq<char>)
    requires
        !name.contains('/'),
    ensures
        basename_of(name) == name,
        name.len() > 0 && name != seq!['.'] ==> basename_of(dir + seq!['/'] + name) == name,
        basename_of(path + seq!['/']) == basename_of(path),
        basename_of(path + seq!['/', '.']) == basename_of(path),
{
    lemma_no_idle_end(name);
    law_last_position(Seq::empty(), Seq::empty(), name, '/');
    assert(name.skip(0) =~= name);
    if name.len() > 0 && name != seq!['.'] {
        let whole = dir + seq!['/'] + name;
        assert(whole.last() == name.last());
        assert(name[name.len() - 1] != '/');
        if whole.last() == '.' {
            if name.len() == 1 {
                assert(name =~= seq!['.']);
            } else {
                assert(whole[whole.len() - 2] == name[name.len() - 2]);
                assert(name[name.len() - 2] != '/');
            }
        }
        assert(!ends_idle(whole));
        law_last_position(dir, name, Seq::empty(), '/');
        assert(whole.skip(dir.len() as int + 1) =~= name);
    }
    let slashed = path + seq!['/'];
    assert(slashed.last() == '/');
    assert(slashed.drop_last() =~= path);
    assert(path_trunk(slashed) == path_trunk(path));
    let dotted = path + seq!['/', '.'];
    assert(dotted.last() == '.');
    assert(dotted[dotted.len() - 2] == '/');
    assert(dotted.drop_last() =~= slashed);
    assert(ends_idle(dotted));
    assert(path_trunk(dotted) == path_trunk(slashed));
}

proof fn lemma_no_idle_end(name: Seq<char>)
    requires
        !name.contains('/'),
    ensures
        path_trunk(name) == name,
{
    if name.len() > 0 {
        assert(name[name.len() - 1] != '/');
    }
    if name.len() > 1 {
        assert(name[name.len() - 2] != '/');
    }
}

/// The white space, by code point: five controls, the space, and those of the other blocks.
pub proof fn law_white_space_by_code_point(c: char)
    ensures
        white_space(c) <==> {
            let code = c as int;
            ||| 9 <= code <= 13
            ||| code == 32
            ||| code == 0x85
            ||| code == 0xa0
            ||| code == 0x1680
            ||| 0x2000 <= code <= 0x200a
            ||| 0x2028 <= code <= 0x2029
            ||| code == 0x202f
            ||| code == 0x205f
            ||| code == 0x3000
        },
{
}

} // verus!
