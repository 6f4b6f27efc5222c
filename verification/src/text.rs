//! Text as sequences of characters: splitting a line into fields, reading and
//! writing decimal numbers, searching for a fragment and joining fields.

use vstd::prelude::*;

verus! {

/// `String::push` appends one character to the end of the string and changes
/// nothing before it.
pub assume_specification[ String::push ](s: &mut String, ch: char)
    ensures
        final(s)@ == old(s)@.push(ch),
;

/// The characters of each text of `texts`, in the same order.
pub open spec fn texts_view(texts: Seq<String>) -> Seq<Seq<char>> {
    Seq::new(texts.len(), |i: int| texts[i]@)
}

/// The characters of each field of `fields`, in the same order.
pub open spec fn fields_view(fields: Seq<Vec<char>>) -> Seq<Seq<char>> {
    Seq::new(fields.len(), |i: int| fields[i]@)
}

/// The characters of `s`, in order.
pub fn chars_of(s: &str) -> (v: Vec<char>)
    ensures
        v@ == s@,
{
    let mut v: Vec<char> = Vec::new();
    for c in it: s.chars()
        invariant
            it.seq() == s@,
            v@ == it.seq().take(it.index()),
    {
        v.push(c);
    }
    v
}

/// Appends the characters of `chars`, in order, to `out`.
pub fn push_chars(out: &mut String, chars: &[char])
    ensures
        final(out)@ == old(out)@ + chars@,
{
    let mut i: usize = 0;
    while i < chars.len()
        invariant
            i <= chars.len(),
            out@ == old(out)@ + chars@.take(i as int),
        decreases chars.len() - i,
    {
        out.push(chars[i]);
        i += 1;
    }
}

/// The string made of the characters of `chars`, in order.
pub fn string_of(chars: &[char]) -> (s: String)
    ensures
        s@ == chars@,
{
    let mut s = String::new();
    push_chars(&mut s, chars);
    s
}

// ---------------------------------------------------------------------------
// Fields

/// The fields of `s` between occurrences of `sep`. A text without `sep` is one
/// field; each `sep` ends a field and starts the next, which may be empty.
pub open spec fn split_fields(s: Seq<char>, sep: char) -> Seq<Seq<char>>
    decreases s.len(),
{
    if s.len() == 0 {
        seq![Seq::<char>::empty()]
    } else {
        let before = split_fields(s.drop_last(), sep);
        if s.last() == sep {
            before.push(Seq::<char>::empty())
        } else {
            before.drop_last().push(before.last().push(s.last()))
        }
    }
}

/// The fields of `fields` written one after the other with `sep` between
/// each two neighbours.
pub open spec fn join_fields(fields: Seq<Seq<char>>, sep: Seq<char>) -> Seq<char>
    decreases fields.len(),
{
    if fields.len() == 0 {
        Seq::<char>::empty()
    } else if fields.len() == 1 {
        fields[0]
    } else {
        join_fields(fields.drop_last(), sep) + sep + fields.last()
    }
}

/// Whether `field` holds no `sep`.
pub open spec fn holds_no(field: Seq<char>, sep: char) -> bool {
    forall|j: int| 0 <= j < field.len() ==> field[j] != sep
}

/// Splitting never yields an empty list of fields.
pub proof fn lemma_split_nonempty(s: Seq<char>, sep: char)
    ensures
        split_fields(s, sep).len() >= 1,
    decreases s.len(),
{
    if s.len() > 0 {
        lemma_split_nonempty(s.drop_last(), sep);
    }
}

/// No field of a split holds the separator.
pub proof fn lemma_split_fields_hold_no_separator(s: Seq<char>, sep: char)
    ensures
        forall|k: int|
            0 <= k < split_fields(s, sep).len() ==> holds_no(#[trigger] split_fields(s, sep)[k], sep),
    decreases s.len(),
{
    if s.len() > 0 {
        lemma_split_nonempty(s.drop_last(), sep);
        lemma_split_fields_hold_no_separator(s.drop_last(), sep);
    }
}

/// A text that goes on with characters other than the separator has its
/// last field go on with them.
pub proof fn lemma_split_of_longer_field(s: Seq<char>, more: Seq<char>, sep: char)
    requires
        holds_no(more, sep),
    ensures
        split_fields(s + more, sep) == split_fields(s, sep).drop_last().push(
            split_fields(s, sep).last() + more,
        ),
    decreases more.len(),
{
    let fields = split_fields(s, sep);
    lemma_split_nonempty(s, sep);
    if more.len() > 0 {
        let shorter = more.drop_last();
        lemma_split_of_longer_field(s, shorter, sep);
        assert((s + more).drop_last() =~= s + shorter);
        let before = split_fields(s + shorter, sep);
        assert(before.last().push(more.last()) =~= fields.last() + more);
    }
}

/// Fields that hold no separator, joined with it, split into the same
/// fields again: together with the two laws above, a split is the one list
/// of such fields whose joined text is the text that was split.
pub proof fn lemma_split_of_join(fields: Seq<Seq<char>>, sep: char)
    requires
        fields.len() >= 1,
        forall|k: int| 0 <= k < fields.len() ==> holds_no(#[trigger] fields[k], sep),
    ensures
        split_fields(join_fields(fields, seq![sep]), sep) == fields,
    decreases fields.len(),
{
    if fields.len() == 1 {
        lemma_split_of_longer_field(Seq::<char>::empty(), fields[0], sep);
    } else {
        let init = fields.drop_last();
        let joined = join_fields(init, seq![sep]);
        lemma_split_of_join(init, sep);
        let ended = joined + seq![sep];
        assert(ended.drop_last() =~= joined);
        lemma_split_of_longer_field(ended, fields.last(), sep);
    }
}

/// Adding a field to one or more fields adds the separator and the field to
/// their joined text.
pub proof fn lemma_join_one_more(fields: Seq<Seq<char>>, sep: Seq<char>, field: Seq<char>)
    requires
        fields.len() >= 1,
    ensures
        join_fields(fields.push(field), sep) == join_fields(fields, sep) + sep + field,
{
    assert(fields.push(field).drop_last() =~= fields);
}

/// Joining the fields of a split with the separator gives the text back.
pub proof fn lemma_join_of_split(s: Seq<char>, sep: char)
    ensures
        join_fields(split_fields(s, sep), seq![sep]) == s,
    decreases s.len(),
{
    if s.len() > 0 {
        let before = split_fields(s.drop_last(), sep);
        let after = split_fields(s, sep);
        lemma_split_nonempty(s.drop_last(), sep);
        lemma_join_of_split(s.drop_last(), sep);
        if s.last() == sep {
            assert(after.drop_last() =~= before);
        } else if before.len() > 1 {
            assert(after.drop_last() =~= before.drop_last());
            assert(s =~= s.drop_last().push(s.last()));
        }
    }
}

/// The fields of `s` between occurrences of `sep`.
pub fn split_on(s: &[char], sep: char) -> (fields: Vec<Vec<char>>)
    ensures
        fields_view(fields@) == split_fields(s@, sep),
{
    let mut fields: Vec<Vec<char>> = Vec::new();
    let mut current: Vec<char> = Vec::new();
    let mut i: usize = 0;
    while i < s.len()
        invariant
            i <= s.len(),
            fields_view(fields@).push(current@) == split_fields(s@.take(i as int), sep),
        decreases s.len() - i,
    {
        let c = s[i];
        assert(s@.take(i + 1).drop_last() =~= s@.take(i as int));
        if c == sep {
            fields.push(current);
            current = Vec::new();
        } else {
            current.push(c);
        }
        i += 1;
    }
    assert(s@.take(s.len() as int) =~= s@);
    fields.push(current);
    fields
}

// ---------------------------------------------------------------------------
// Fragments

/// Whether `fragment` stands in `text` at position `at`.
pub open spec fn occurs_at(text: Seq<char>, fragment: Seq<char>, at: int) -> bool {
    &&& 0 <= at
    &&& at + fragment.len() <= text.len()
    &&& text.subrange(at, at + fragment.len()) == fragment
}

/// Whether `fragment` stands somewhere in `text`. The empty fragment stands in
/// every text.
pub open spec fn contains_fragment(text: Seq<char>, fragment: Seq<char>) -> bool {
    exists|at: int| occurs_at(text, fragment, at)
}

/// Whether `fragment` stands in `text` at position `at`.
fn matches_at(text: &[char], fragment: &[char], at: usize) -> (found: bool)
    requires
        at + fragment.len() <= text.len(),
    ensures
        found == occurs_at(text@, fragment@, at as int),
{
    let mut k: usize = 0;
    while k < fragment.len()
        invariant
            k <= fragment.len(),
            at + fragment.len() <= text.len(),
            forall|j: int| 0 <= j < k ==> text@[at + j] == fragment@[j],
        decreases fragment.len() - k,
    {
        if text[at + k] != fragment[k] {
            return false;
        }
        k += 1;
    }
    assert(text@.subrange(at as int, at + fragment.len()) =~= fragment@);
    true
}

/// Whether `fragment` stands somewhere in `text`.
pub fn contains(text: &[char], fragment: &[char]) -> (found: bool)
    ensures
        found == contains_fragment(text@, fragment@),
{
    if fragment.len() > text.len() {
        return false;
    }
    let last: usize = text.len() - fragment.len();
    let mut at: usize = 0;
    while at < last
        invariant
            at <= last,
            last == text.len() - fragment.len(),
            fragment.len() <= text.len(),
            forall|j: int| 0 <= j < at ==> !occurs_at(text@, fragment@, j),
        decreases last - at,
    {
        if matches_at(text, fragment, at) {
            return true;
        }
        at += 1;
    }
    matches_at(text, fragment, last)
}

} // verus!
