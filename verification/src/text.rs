//! The identifier token of the document format, `id: "<value>"`, and the
//! replacement of its first occurrence in a text.

use vstd::prelude::*;

verus! {

/// The token that carries the identifier `id` in a document: the key `id`,
/// a colon, one space, and the value between double quotes.
pub open spec fn id_token(id: Seq<char>) -> Seq<char> {
    seq!['i', 'd', ':', ' ', '"'] + id + seq!['"']
}

/// `pat` stands in `text` at index `i`.
pub open spec fn occurs_at(text: Seq<char>, pat: Seq<char>, i: int) -> bool {
    &&& 0 <= i
    &&& i + pat.len() <= text.len()
    &&& text.subrange(i, i + pat.len()) == pat
}

/// The least index from `from` on at which `pat` stands in `text`.
pub open spec fn find_from(text: Seq<char>, pat: Seq<char>, from: int) -> Option<int>
    decreases text.len() + 1 - from,
{
    if from < 0 || from + pat.len() > text.len() {
        None
    } else if occurs_at(text, pat, from) {
        Some(from)
    } else {
        find_from(text, pat, from + 1)
    }
}

/// `text` with the first occurrence of `pat` replaced by `to`; `text`
/// itself where `pat` does not occur.
pub open spec fn replace_first(text: Seq<char>, pat: Seq<char>, to: Seq<char>) -> Seq<char> {
    match find_from(text, pat, 0) {
        Some(i) => text.subrange(0, i) + to + text.subrange(i + pat.len(), text.len() as int),
        None => text,
    }
}

/// `text` with the first `count` occurrences of `pat` replaced by `to`,
/// each search starting behind the occurrence before it.
pub open spec fn replace_leading(text: Seq<char>, pat: Seq<char>, to: Seq<char>, count: nat) -> Seq<
    char,
>
    decreases count,
{
    if count == 0 {
        text
    } else {
        match find_from(text, pat, 0) {
            Some(i) => text.subrange(0, i) + to + replace_leading(
                text.subrange(i + pat.len(), text.len() as int),
                pat,
                to,
                (count - 1) as nat,
            ),
            None => text,
        }
    }
}

/// Replacing up to one occurrence replaces the first.
pub proof fn lemma_replace_leading_one(text: Seq<char>, pat: Seq<char>, to: Seq<char>)
    ensures
        replace_leading(text, pat, to, 1) == replace_first(text, pat, to),
{
    reveal_with_fuel(replace_leading, 2);
}

/// What `find_from` finds is the least occurrence from `from` on.
pub proof fn lemma_find_from(text: Seq<char>, pat: Seq<char>, from: int)
    requires
        0 <= from,
    ensures
        match find_from(text, pat, from) {
            Some(i) => from <= i && occurs_at(text, pat, i) && forall|j: int|
                from <= j < i ==> !occurs_at(text, pat, j),
            None => forall|j: int| from <= j ==> !occurs_at(text, pat, j),
        },
    decreases text.len() + 1 - from,
{
    if from + pat.len() > text.len() {
    } else if occurs_at(text, pat, from) {
    } else {
        lemma_find_from(text, pat, from + 1);
    }
}

/// Replacing the first occurrence touches nothing else: the text before
/// the least index at which `pat` stands and the text behind that
/// occurrence are kept, with `to` between them; a text in which `pat` does
/// not occur is returned as it is.
pub proof fn lemma_replace_first_keeps_the_rest(
    text: Seq<char>,
    pat: Seq<char>,
    to: Seq<char>,
    i: int,
)
    ensures
        (forall|j: int| !occurs_at(text, pat, j)) ==> replace_first(text, pat, to) == text,
        occurs_at(text, pat, i) && (forall|j: int| 0 <= j < i ==> !occurs_at(text, pat, j))
            ==> replace_first(text, pat, to) == text.subrange(0, i) + to + text.subrange(
            i + pat.len(),
            text.len() as int,
        ),
{
    lemma_find_from(text, pat, 0);
}

/// Calls `str::replacen` of std, which copies `text` and, scanning from the
/// left, puts `to` in place of the first `count` matches of `pat` that do
/// not overlap. The contract states that result for a pattern that is not
/// empty.
#[verifier::external_body]
fn replacen(text: &str, pat: &str, to: &str, count: usize) -> (r: String)
    requires
        pat@.len() > 0,
    ensures
        r@ == replace_leading(text@, pat@, to@, count as nat),
{
    text.replacen(pat, to, count)
}

/// Writes the token of an identifier.
pub fn make_token(id: &str) -> (r: String)
    ensures
        r@ == id_token(id@),
{
    proof {
        reveal_strlit("id: \"");
        reveal_strlit("\"");
    }
    let mut out = String::from_str("id: \"");
    out.append(id);
    out.append("\"");
    assert(out@ =~= id_token(id@));
    out
}

/// Rewrites the first token of the identifier `old_id` in `text` to the
/// token of `new_id`.
pub fn rewrite_first_token(text: &str, old_id: &str, new_id: &str) -> (r: String)
    ensures
        r@ == replace_first(text@, id_token(old_id@), id_token(new_id@)),
{
    let from = make_token(old_id);
    let to = make_token(new_id);
    proof {
        lemma_replace_leading_one(text@, from@, to@);
    }
    replacen(text, from.as_str(), to.as_str(), 1)
}

} // verus!
