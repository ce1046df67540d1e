//! From pasted text to fields: line breaks become separators, white space is
//! dropped, and what stands between two separators is one field.
use vstd::prelude::*;

verus! {

/// The character that separates two fields.
pub const SEPARATOR: char = ',';

/// Whether a character counts as white space (the Unicode property `White_Space`),
/// as `char::is_whitespace` decides it.
pub uninterp spec fn is_white_space(c: char) -> bool;

/// Calls `char::is_whitespace`. The answer depends on the character alone; the
/// contract gives it the name `is_white_space` and claims nothing more of it.
#[verifier::external_body]
fn char_is_whitespace(c: char) -> (r: bool)
    ensures
        r == is_white_space(c),
{
    c.is_whitespace()
}

/// `String::push` appends the given character to the end of the string and
/// leaves the rest of it as it was.
pub assume_specification[ String::push ](s: &mut String, c: char)
    ensures
        final(s)@ == old(s)@.push(c),
;

/// The characters of a text, one by one.
pub fn chars_of(s: &str) -> (r: Vec<char>)
    ensures
        r@ == s@,
{
    let mut r: Vec<char> = Vec::new();
    for c in it: s.chars()
        invariant
            it.seq() == s@,
            r@ == s@.take(it.index() as int),
    {
        r.push(c);
        assert(s@.take(it.index() + 1) =~= s@.take(it.index() as int).push(c));
    }
    assert(s@.take(s@.len() as int) =~= s@);
    r
}

/// A line break counts as a separator; every other character stands for itself.
pub open spec fn unbroken(c: char) -> char {
    if c == '\n' {
        SEPARATOR
    } else {
        c
    }
}

/// The text with each line break turned into a separator and, after that,
/// all white space taken out.
pub open spec fn cleaned(s: Seq<char>) -> Seq<char> {
    unbroken_text(s).filter(is_kept())
}

/// The text with each line break turned into a separator.
pub open spec fn unbroken_text(s: Seq<char>) -> Seq<char> {
    s.map_values(|c: char| unbroken(c))
}

/// The test that cleaning puts to each character: it stays unless it is white space.
pub open spec fn is_kept() -> spec_fn(char) -> bool {
    |c: char| !is_white_space(c)
}

/// The fields of a text, in order: the empty text is one empty field, a
/// separator closes the last field and opens an empty one, and any other
/// character is added to the last field.
pub open spec fn split(s: Seq<char>) -> Seq<Seq<char>>
    decreases s.len(),
{
    if s.len() == 0 {
        seq![Seq::<char>::empty()]
    } else {
        let before = split(s.drop_last());
        if s.last() == SEPARATOR {
            before.push(Seq::<char>::empty())
        } else {
            before.drop_last().push(before.last().push(s.last()))
        }
    }
}

/// The fields of a pasted text: those of its cleaned form.
pub open spec fn fields_of(s: Seq<char>) -> Seq<Seq<char>> {
    split(cleaned(s))
}

/// How many separators a text holds.
pub open spec fn separators(s: Seq<char>) -> nat
    decreases s.len(),
{
    if s.len() == 0 {
        0
    } else {
        separators(s.drop_last()) + if s.last() == SEPARATOR {
            1nat
        } else {
            0nat
        }
    }
}

/// The fields put together again, with a separator between each two.
pub open spec fn joined(fields: Seq<Seq<char>>) -> Seq<char>
    decreases fields.len(),
{
    if fields.len() == 0 {
        Seq::<char>::empty()
    } else if fields.len() == 1 {
        fields[0]
    } else {
        joined(fields.drop_last()).push(SEPARATOR) + fields.last()
    }
}

/// Cleaning goes character by character: a character that is white space once
/// line breaks are separators adds nothing, any other adds itself.
pub proof fn lemma_cleaned_push(s: Seq<char>, c: char)
    ensures
        cleaned(s.push(c)) == if is_white_space(unbroken(c)) {
            cleaned(s)
        } else {
            cleaned(s).push(unbroken(c))
        },
{
    assert(unbroken_text(s.push(c)) =~= unbroken_text(s).push(unbroken(c)));
    unbroken_text(s).lemma_filter_push(unbroken(c), is_kept());
}

/// A text has one field more than it has separators.
pub proof fn lemma_split_len(s: Seq<char>)
    ensures
        split(s).len() == separators(s) + 1,
    decreases s.len(),
{
    if s.len() > 0 {
        lemma_split_len(s.drop_last());
    }
}

/// No field holds a separator.
pub proof fn lemma_split_fields_whole(s: Seq<char>, i: int)
    requires
        0 <= i < split(s).len(),
    ensures
        !split(s)[i].contains(SEPARATOR),
    decreases s.len(),
{
    lemma_split_len(s);
    if s.len() > 0 {
        let before = split(s.drop_last());
        lemma_split_len(s.drop_last());
        if i < before.len() - 1 {
            lemma_split_fields_whole(s.drop_last(), i);
        } else if s.last() != SEPARATOR {
            lemma_split_fields_whole(s.drop_last(), before.len() - 1);
            let grown = before.last().push(s.last());
            assert forall|k: int| 0 <= k < grown.len() implies grown[k] != SEPARATOR by {
                if k < before.last().len() {
                    assert(before.last().contains(before.last()[k]));
                }
            }
        } else if i < before.len() {
            lemma_split_fields_whole(s.drop_last(), i);
        }
    }
}

/// The fields, joined by separators, give the text back.
pub proof fn lemma_split_joined(s: Seq<char>)
    ensures
        joined(split(s)) == s,
    decreases s.len(),
{
    lemma_split_len(s);
    if s.len() == 0 {
        assert(joined(split(s)) =~= s);
    } else {
        let rest = s.drop_last();
        let before = split(rest);
        lemma_split_len(rest);
        lemma_split_joined(rest);
        if s.last() == SEPARATOR {
            let after = before.push(Seq::<char>::empty());
            assert(after.drop_last() =~= before);
            assert(joined(after) =~= rest.push(SEPARATOR));
            assert(rest.push(SEPARATOR) =~= s);
        } else {
            let grown = before.last().push(s.last());
            let after = before.drop_last().push(grown);
            assert(after.drop_last() =~= before.drop_last());
            if before.len() == 1 {
                assert(joined(after) =~= rest.push(s.last()));
            } else {
                assert(joined(after) =~= (joined(before.drop_last()).push(SEPARATOR)
                    + before.last()).push(s.last()));
            }
            assert(rest.push(s.last()) =~= s);
        }
    }
}

/// Cleaning never adds a character, so a pasted text has at most one field
/// more than it has separators and line breaks together.
pub proof fn lemma_fields_bounded(s: Seq<char>)
    ensures
        fields_of(s).len() <= separators(unbroken_text(s)) + 1,
{
    lemma_split_len(cleaned(s));
    lemma_separators_filtered(unbroken_text(s));
}

/// Taking white space out of a text does not add separators to it.
proof fn lemma_separators_filtered(s: Seq<char>)
    ensures
        separators(s.filter(is_kept())) <= separators(s),
    decreases s.len(),
{
    if s.len() > 0 {
        lemma_separators_filtered(s.drop_last());
        let kept = s.drop_last().filter(is_kept());
        s.drop_last().lemma_filter_push(s.last(), is_kept());
        assert(s.drop_last().push(s.last()) =~= s);
        assert(kept.push(s.last()).drop_last() =~= kept);
    }
}

/// Splits a pasted text into its fields: line breaks count as separators,
/// white space is dropped, and each separator ends one field. The result
/// always holds at least one field, which may be empty; no field holds a
/// separator, and the fields joined by separators are the cleaned text.
pub fn csv_fields(inp: &str) -> (fields: Vec<String>)
    ensures
        fields.deep_view() == fields_of(inp@),
        fields.len() == separators(cleaned(inp@)) + 1,
        joined(fields.deep_view()) == cleaned(inp@),
        forall|i: int| 0 <= i < fields.len() ==> !(#[trigger] fields[i])@.contains(SEPARATOR),
{
    let mut fields: Vec<String> = Vec::new();
    let mut current = String::new();
    for c in it: inp.chars()
        invariant
            it.seq() == inp@,
            fields.deep_view().push(current@) == fields_of(inp@.take(it.index() as int)),
    {
        let ghost seen = inp@.take(it.index() as int);
        let ghost fields_before = fields.deep_view();
        let ghost open_field = current@;
        proof {
            assert(inp@.take(it.index() + 1) =~= seen.push(c));
            lemma_cleaned_push(seen, c);
            lemma_split_len(cleaned(seen));
            assert(cleaned(seen).push(unbroken(c)).drop_last() =~= cleaned(seen));
            assert(fields_before.push(current@).drop_last() =~= fields_before);
        }
        let m = if c == '\n' {
            SEPARATOR
        } else {
            c
        };
        if !char_is_whitespace(m) {
            if m == SEPARATOR {
                fields.push(current);
                current = String::new();
                assert(fields.deep_view() =~= fields_before.push(open_field));
            } else {
                current.push(m);
            }
        }
    }
    proof {
        assert(inp@.take(inp@.len() as int) =~= inp@);
        lemma_split_len(cleaned(inp@));
    }
    let ghost fields_before = fields.deep_view();
    let ghost last = current@;
    fields.push(current);
    proof {
        assert(fields.deep_view() =~= fields_before.push(last));
        lemma_split_joined(cleaned(inp@));
        assert forall|i: int| 0 <= i < fields.len() implies !(#[trigger] fields[i])@.contains(
            SEPARATOR,
        ) by {
            lemma_split_fields_whole(cleaned(inp@), i);
            assert(fields.deep_view()[i] == fields[i]@);
        }
    }
    fields
}

/// The values of the fields that were read as numbers, in the order of the
/// fields; a field that could not be read leaves nothing behind.
pub open spec fn kept<T>(outcomes: Seq<Option<T>>) -> Seq<T> {
    outcomes.filter_map(|o: Option<T>| o)
}

/// What is kept is never longer than what was tried.
pub proof fn lemma_kept_len<T>(outcomes: Seq<Option<T>>)
    ensures
        kept(outcomes).len() <= outcomes.len(),
    decreases outcomes.len(),
{
    if outcomes.len() > 0 {
        lemma_kept_len(outcomes.drop_last());
    }
}

/// Every kept value is the outcome of reading one of the fields.
pub proof fn lemma_kept_was_read<T>(outcomes: Seq<Option<T>>, i: int)
    requires
        0 <= i < kept(outcomes).len(),
    ensures
        outcomes.contains(Some(kept(outcomes)[i])),
    decreases outcomes.len(),
{
    if outcomes.len() > 0 {
        let rest = outcomes.drop_last();
        if i < kept(rest).len() {
            lemma_kept_was_read(rest, i);
            let j = choose|j: int| 0 <= j < rest.len() && rest[j] == Some(kept(outcomes)[i]);
            assert(outcomes[j] == Some(kept(outcomes)[i]));
        } else {
            assert(outcomes[outcomes.len() - 1] == Some(kept(outcomes)[i]));
        }
    }
}

/// A series read from a pasted text has at most as many values as the text
/// has fields, whatever reading each field gave.
pub proof fn lemma_series_bounded<T>(text: Seq<char>, outcomes: Seq<Option<T>>)
    requires
        outcomes.len() == fields_of(text).len(),
    ensures
        kept(outcomes).len() <= fields_of(text).len(),
        kept(outcomes).len() <= separators(unbroken_text(text)) + 1,
{
    lemma_kept_len(outcomes);
    lemma_fields_bounded(text);
}

/// Builds the series from the outcome of reading each field: the values that
/// were read stay, in their order, and each field that could not be read is
/// passed over in silence.
pub fn keep_parsed<T>(outcomes: Vec<Option<T>>) -> (series: Vec<T>)
    ensures
        series@ == kept(outcomes@),
        series.len() <= outcomes.len(),
        forall|i: int| 0 <= i < series.len() ==> outcomes@.contains(Some(#[trigger] series[i])),
{
    let mut series: Vec<T> = Vec::new();
    let ghost all = outcomes@;
    for o in it: outcomes.into_iter()
        invariant
            it.seq() == all,
            series@ == kept(all.take(it.index() as int)),
    {
        proof {
            all.lemma_filter_map_take_succ(|o: Option<T>| o, it.index() as int);
        }
        match o {
            Some(v) => {
                series.push(v);
            },
            None => {},
        }
    }
    proof {
        assert(all.take(all.len() as int) =~= all);
        lemma_kept_len(all);
        assert forall|i: int| 0 <= i < series.len() implies all.contains(
            Some(#[trigger] series[i]),
        ) by {
            lemma_kept_was_read(all, i);
        }
    }
    series
}

} // verus!
