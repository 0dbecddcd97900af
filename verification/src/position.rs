//! Where the placeholders stand in the text.
//!
//! The tokens of a statement say where each placeholder is. The proof
//! functions here carry that over to the text itself: the name of each
//! placeholder stands in the named text at an offset that the tokens give,
//! the offsets grow from left to right, the positional text is the named text
//! with each name replaced whole, and, where the texts between the
//! placeholders hold no colon, a search of the named text for a placeholder's
//! name finds that placeholder and no other.

use crate::fragment::{lemma_concat, lemma_single, named, numbers, positional, Token};
use crate::placeholder::{
    is_digit, lemma_decimal_value, lemma_placeholder_name_colon, lemma_placeholder_name_injective,
    lemma_placeholder_name_shape, placeholder_name, positional_marker,
};
use vstd::prelude::*;

verus! {

/// The index of the token that is the `k`th placeholder of `ts`, counted
/// from 0.
pub open spec fn placeholder_index(ts: Seq<Token>, k: int) -> int
    decreases ts.len(),
{
    if ts.len() == 0 {
        0
    } else if k < numbers(ts.drop_last()).len() {
        placeholder_index(ts.drop_last(), k)
    } else {
        ts.len() - 1
    }
}

/// Where the name of the `k`th placeholder starts in the named text: the
/// length of the text of all tokens before it.
pub open spec fn named_offset(ts: Seq<Token>, k: int) -> int {
    named(ts.take(placeholder_index(ts, k))).len() as int
}

/// Where the marker of the `k`th placeholder stands in the positional text.
pub open spec fn positional_offset(ts: Seq<Token>, k: int) -> int {
    positional(ts.take(placeholder_index(ts, k))).len() as int
}

/// The `k`th placeholder is a token of the sequence, it holds the `k`th
/// number, and exactly `k` placeholders stand before it.
pub proof fn lemma_placeholder_index(ts: Seq<Token>, k: int)
    requires
        0 <= k < numbers(ts).len(),
    ensures
        0 <= placeholder_index(ts, k) < ts.len(),
        ts[placeholder_index(ts, k)] == Token::Param(numbers(ts)[k]),
        numbers(ts.take(placeholder_index(ts, k))) == numbers(ts).take(k),
    decreases ts.len(),
{
    let front = ts.drop_last();
    if k < numbers(front).len() {
        lemma_placeholder_index(front, k);
        let i = placeholder_index(front, k);
        assert(ts.take(i) =~= front.take(i));
        assert(numbers(ts).take(k) =~= numbers(front).take(k));
    } else {
        assert(ts.take(ts.len() - 1) =~= front);
        assert(numbers(ts).take(k) =~= numbers(front));
    }
}

/// The placeholders of a longer prefix include those of a shorter one.
proof fn lemma_prefix_numbers(ts: Seq<Token>, a: int, b: int)
    requires
        0 <= a <= b <= ts.len(),
    ensures
        numbers(ts.take(b)) == numbers(ts.take(a)) + numbers(ts.subrange(a, b)),
        named(ts.take(b)) == named(ts.take(a)) + named(ts.subrange(a, b)),
        positional(ts.take(b)) == positional(ts.take(a)) + positional(ts.subrange(a, b)),
{
    assert(ts.take(b) =~= ts.take(a) + ts.subrange(a, b));
    lemma_concat(ts.take(a), ts.subrange(a, b));
}

/// The text around one token: what stands before it, the token, what stands
/// after it.
proof fn lemma_split_at(ts: Seq<Token>, i: int)
    requires
        0 <= i < ts.len(),
    ensures
        named(ts) == named(ts.take(i)) + ts[i].named() + named(ts.skip(i + 1)),
        positional(ts) == positional(ts.take(i)) + ts[i].positional() + positional(
            ts.skip(i + 1),
        ),
{
    assert(ts =~= ts.take(i) + seq![ts[i]] + ts.skip(i + 1));
    lemma_single(ts[i]);
    lemma_concat(ts.take(i), seq![ts[i]]);
    lemma_concat(ts.take(i) + seq![ts[i]], ts.skip(i + 1));
}

/// Each placeholder stands in the text where its offset says: the named text
/// holds its name there, and the positional text the marker.
pub proof fn lemma_placeholder_in_text(ts: Seq<Token>, k: int)
    requires
        0 <= k < numbers(ts).len(),
    ensures
        0 <= named_offset(ts, k),
        named_offset(ts, k) + placeholder_name(numbers(ts)[k]).len() <= named(ts).len(),
        named(ts).subrange(
            named_offset(ts, k),
            named_offset(ts, k) + placeholder_name(numbers(ts)[k]).len(),
        ) == placeholder_name(numbers(ts)[k]),
        0 <= positional_offset(ts, k),
        positional_offset(ts, k) + positional_marker().len() <= positional(ts).len(),
        positional(ts).subrange(
            positional_offset(ts, k),
            positional_offset(ts, k) + positional_marker().len(),
        ) == positional_marker(),
{
    lemma_placeholder_index(ts, k);
    let i = placeholder_index(ts, k);
    lemma_split_at(ts, i);
    let name = placeholder_name(numbers(ts)[k]);
    let off = named_offset(ts, k);
    assert(named(ts).subrange(off, off + name.len()) =~= name);
    let poff = positional_offset(ts, k);
    assert(positional(ts).subrange(poff, poff + positional_marker().len())
        =~= positional_marker());
}

/// The placeholders stand in the text from left to right in the order of
/// their numbers' list: an earlier one ends before a later one starts, in the
/// named text and in the positional text.
pub proof fn lemma_placeholders_left_to_right(ts: Seq<Token>, j: int, k: int)
    requires
        0 <= j < k < numbers(ts).len(),
    ensures
        named_offset(ts, j) + placeholder_name(numbers(ts)[j]).len() <= named_offset(ts, k),
        positional_offset(ts, j) + positional_marker().len() <= positional_offset(ts, k),
{
    lemma_placeholder_index(ts, j);
    lemma_placeholder_index(ts, k);
    let a = placeholder_index(ts, j);
    let b = placeholder_index(ts, k);
    if b <= a {
        lemma_prefix_numbers(ts, b, a);
        assert(numbers(ts).take(j).len() == j);
        assert(numbers(ts).take(k).len() == k);
    } else {
        lemma_prefix_numbers(ts, a + 1, b);
        lemma_prefix_numbers(ts, a, a + 1);
        assert(ts.subrange(a, a + 1) =~= seq![ts[a]]);
        lemma_single(ts[a]);
    }
}

/// Whether no text of `ts` holds a colon.
pub open spec fn colon_free(ts: Seq<Token>) -> bool {
    forall|i: int, j: int|
        0 <= i < ts.len() && ts[i] is Text && 0 <= j < ts[i]->Text_0.len() ==> ts[i]->Text_0[j]
            != ':'
}

/// Whether one of the placeholders of `ts` starts at `p` in the named text.
pub open spec fn placeholder_starts_at(ts: Seq<Token>, p: int) -> bool {
    exists|k: int| 0 <= k < numbers(ts).len() && named_offset(ts, k) == p
}

/// Where no text holds a colon, the colons of the named text are the starts
/// of the placeholders: a colon stands at `p` exactly if a placeholder starts
/// there.
pub proof fn lemma_colons_are_placeholders(ts: Seq<Token>, p: int)
    requires
        colon_free(ts),
        0 <= p < named(ts).len(),
    ensures
        named(ts)[p] == ':' <==> placeholder_starts_at(ts, p),
    decreases ts.len(),
{
    let front = ts.drop_last();
    let last = ts.last();
    let base = named(front).len() as int;
    let held = numbers(front).len() as int;
    assert(ts.len() > 0);
    assert forall|k: int| 0 <= k < held implies named_offset(ts, k) == #[trigger] named_offset(
        front,
        k,
    ) && named_offset(front, k) < base by {
        lemma_placeholder_in_text(front, k);
        lemma_placeholder_index(front, k);
        lemma_decimal_value(numbers(front)[k]);
        assert(ts.take(placeholder_index(front, k)) =~= front.take(placeholder_index(front, k)));
    }
    assert(ts.take(ts.len() - 1) =~= front);
    if p < base {
        assert forall|i: int, j: int|
            0 <= i < front.len() && front[i] is Text && 0 <= j < front[i]->Text_0.len()
                implies front[i]->Text_0[j] != ':' by {
            assert(front[i] == ts[i]);
        }
        lemma_colons_are_placeholders(front, p);
        if placeholder_starts_at(front, p) {
            let k = choose|k: int| 0 <= k < held && named_offset(front, k) == p;
            assert(named_offset(ts, k) == named_offset(front, k));
            assert(placeholder_starts_at(ts, p));
        }
        if placeholder_starts_at(ts, p) {
            let k = choose|k: int| 0 <= k < numbers(ts).len() && named_offset(ts, k) == p;
            if k < held {
                assert(named_offset(ts, k) == named_offset(front, k));
            }
            assert(placeholder_starts_at(front, p));
        }
    } else {
        match last {
            Token::Text(t) => {
                assert(ts[ts.len() - 1]->Text_0[p - base] != ':');
                assert(numbers(ts) =~= numbers(front));
                if placeholder_starts_at(ts, p) {
                    let k = choose|k: int| 0 <= k < numbers(ts).len() && named_offset(ts, k) == p;
                    assert(named_offset(ts, k) == named_offset(front, k));
                }
            },
            Token::Param(n) => {
                lemma_placeholder_name_colon(n, p - base);
                assert(named_offset(ts, held) == base);
                if p == base {
                    assert(placeholder_starts_at(ts, p));
                }
                if placeholder_starts_at(ts, p) {
                    let k = choose|k: int| 0 <= k < numbers(ts).len() && named_offset(ts, k) == p;
                    if k < held {
                        assert(named_offset(ts, k) == named_offset(front, k));
                    }
                }
            },
        }
    }
}

/// Whether `t` is text that begins with something other than a digit.
pub open spec fn starts_plain(t: Token) -> bool {
    t matches Token::Text(text) && text.len() > 0 && !is_digit(text[0])
}

/// Whether each placeholder of `ts` that is not the last token is followed by
/// text that begins with something other than a digit, so that the digits of
/// its name end where the name ends.
pub open spec fn well_spaced(ts: Seq<Token>) -> bool {
    forall|i: int| 0 < i < ts.len() && ts[i - 1] is Param ==> #[trigger] starts_plain(ts[i])
}

/// Whether `name` stands at `p` in `text` as a whole: the text holds it
/// there, and no digit follows it.
pub open spec fn occurs_whole(text: Seq<char>, name: Seq<char>, p: int) -> bool {
    &&& 0 <= p
    &&& p + name.len() <= text.len()
    &&& text.subrange(p, p + name.len()) == name
    &&& p + name.len() < text.len() ==> !is_digit(text[p + name.len()])
}

/// Two sequences that are well spaced stay so when joined, if the first does
/// not end in a placeholder or the second begins as a placeholder needs it.
pub proof fn lemma_well_spaced_concat(a: Seq<Token>, b: Seq<Token>)
    requires
        well_spaced(a),
        well_spaced(b),
        a.len() > 0 && a.last() is Param && b.len() > 0 ==> starts_plain(b[0]),
    ensures
        well_spaced(a + b),
{
    let ts = a + b;
    assert forall|i: int| 0 < i < ts.len() && ts[i - 1] is Param implies #[trigger] starts_plain(
        ts[i],
    ) by {
        if i < a.len() {
            assert(starts_plain(a[i]));
        } else if i == a.len() {
            assert(ts[i - 1] == a.last());
            assert(ts[i] == b[0]);
        } else {
            assert(ts[i - 1] == b[i - 1 - a.len()]);
            assert(starts_plain(b[i - a.len()]));
        }
    }
}

/// In a well-spaced sequence no digit follows the name of a placeholder.
proof fn lemma_no_digit_follows(ts: Seq<Token>, k: int)
    requires
        well_spaced(ts),
        0 <= k < numbers(ts).len(),
    ensures
        occurs_whole(named(ts), placeholder_name(numbers(ts)[k]), named_offset(ts, k)),
{
    lemma_placeholder_in_text(ts, k);
    lemma_placeholder_index(ts, k);
    let i = placeholder_index(ts, k);
    let name = placeholder_name(numbers(ts)[k]);
    let off = named_offset(ts, k);
    lemma_split_at(ts, i);
    if i + 1 < ts.len() {
        assert(starts_plain(ts[i + 1]));
        let rest = ts.skip(i + 1);
        lemma_split_at(rest, 0);
        assert(rest.take(0) =~= Seq::<Token>::empty());
        assert(rest[0] == ts[i + 1]);
        let text = ts[i + 1]->Text_0;
        assert(named(rest) =~= text + named(rest.skip(1)));
        assert(named(ts)[off + name.len()] == text[0]);
    } else {
        assert(ts.skip(i + 1) =~= Seq::<Token>::empty());
    }
}

/// Two placeholder names that stand whole at the same place are one name.
proof fn lemma_whole_names_agree(text: Seq<char>, a: nat, b: nat, p: int)
    requires
        occurs_whole(text, placeholder_name(a), p),
        occurs_whole(text, placeholder_name(b), p),
    ensures
        a == b,
{
    let x = placeholder_name(a);
    let y = placeholder_name(b);
    lemma_placeholder_name_shape(a);
    lemma_placeholder_name_shape(b);
    if x.len() < y.len() {
        assert(text[p + x.len()] == text.subrange(p, p + y.len())[x.len() as int]);
        assert(is_digit(y[x.len() as int]));
    } else if y.len() < x.len() {
        assert(text[p + y.len()] == text.subrange(p, p + x.len())[y.len() as int]);
        assert(is_digit(x[y.len() as int]));
    } else {
        lemma_placeholder_name_injective(a, b);
    }
}

/// Searching the named text for a placeholder's whole name finds it once,
/// where the placeholder stands: in a well-spaced sequence whose texts hold
/// no colon and whose placeholders differ, the name of the `k`th placeholder
/// stands whole at `p` exactly if `p` is its offset.
pub proof fn lemma_whole_name_found_once(ts: Seq<Token>, k: int, p: int)
    requires
        colon_free(ts),
        well_spaced(ts),
        numbers(ts).no_duplicates(),
        0 <= k < numbers(ts).len(),
    ensures
        occurs_whole(named(ts), placeholder_name(numbers(ts)[k]), p) <==> p == named_offset(ts, k),
{
    let text = named(ts);
    let name = placeholder_name(numbers(ts)[k]);
    lemma_no_digit_follows(ts, k);
    if occurs_whole(text, name, p) {
        lemma_placeholder_name_shape(numbers(ts)[k]);
        lemma_placeholder_name_colon(numbers(ts)[k], 0);
        assert(text[p] == text.subrange(p, p + name.len())[0]);
        lemma_colons_are_placeholders(ts, p);
        let j = choose|j: int| 0 <= j < numbers(ts).len() && named_offset(ts, j) == p;
        lemma_no_digit_follows(ts, j);
        lemma_whole_names_agree(text, numbers(ts)[k], numbers(ts)[j], p);
    }
}

/// `text` with the `len` characters from `start` on replaced by `marker`.
pub open spec fn replace_range(text: Seq<char>, start: int, len: int, marker: Seq<char>) -> Seq<
    char,
> {
    text.subrange(0, start) + marker + text.subrange(start + len, text.len() as int)
}

/// The named text of `ts` in which the names of the placeholders from the
/// `k`th on are replaced by the positional marker, the last one first, each
/// at its offset and over the whole length of its name.
pub open spec fn marked_from(ts: Seq<Token>, k: int) -> Seq<char>
    decreases numbers(ts).len() - k,
{
    if 0 <= k < numbers(ts).len() {
        replace_range(
            marked_from(ts, k + 1),
            named_offset(ts, k),
            placeholder_name(numbers(ts)[k]).len() as int,
            positional_marker(),
        )
    } else {
        named(ts)
    }
}

/// Tokens without a placeholder read the same in both texts.
proof fn lemma_plain_text(ts: Seq<Token>)
    requires
        numbers(ts).len() == 0,
    ensures
        named(ts) == positional(ts),
    decreases ts.len(),
{
    if ts.len() > 0 {
        lemma_plain_text(ts.drop_last());
    }
}

/// Where the tokens are cut for the `k`th placeholder: at its index, or at
/// the end where there is no `k`th.
spec fn cut(ts: Seq<Token>, k: int) -> int {
    if 0 <= k < numbers(ts).len() {
        placeholder_index(ts, k)
    } else {
        ts.len() as int
    }
}

/// With the names from the `k`th on replaced, the text is the named text of
/// the tokens before the `k`th placeholder and the positional text of the
/// rest.
proof fn lemma_marked_from(ts: Seq<Token>, k: int)
    requires
        0 <= k <= numbers(ts).len(),
    ensures
        0 <= cut(ts, k) <= ts.len(),
        marked_from(ts, k) == named(ts.take(cut(ts, k))) + positional(ts.skip(cut(ts, k))),
    decreases numbers(ts).len() - k,
{
    if k == numbers(ts).len() {
        assert(ts.take(ts.len() as int) =~= ts);
        assert(ts.skip(ts.len() as int) =~= Seq::<Token>::empty());
        assert(named(ts) + positional(Seq::<Token>::empty()) =~= named(ts));
    } else {
        lemma_marked_from(ts, k + 1);
        lemma_placeholder_index(ts, k);
        let a = cut(ts, k);
        let b = cut(ts, k + 1);
        let mid = ts.subrange(a + 1, b);
        assert(a < b && numbers(mid).len() == 0) by {
            if k + 1 < numbers(ts).len() {
                lemma_placeholder_index(ts, k + 1);
            } else {
                assert(ts.take(b) =~= ts);
            }
            assert(numbers(ts.take(b)).len() == k + 1) by {
                if k + 1 < numbers(ts).len() {
                    assert(numbers(ts).take(k + 1).len() == k + 1);
                }
            }
            assert(numbers(ts).take(k).len() == k);
            if b <= a {
                lemma_prefix_numbers(ts, b, a);
            } else {
                lemma_prefix_numbers(ts, a, a + 1);
                lemma_prefix_numbers(ts, a + 1, b);
                assert(ts.subrange(a, a + 1) =~= seq![ts[a]]);
                lemma_single(ts[a]);
            }
        }
        lemma_plain_text(mid);
        lemma_single(ts[a]);
        let name = placeholder_name(numbers(ts)[k]);
        let before = named(ts.take(a));
        let after = positional(ts.skip(b));
        // The text with the later names replaced holds this name in full.
        assert(named(ts.take(b)) == before + name + named(mid)) by {
            lemma_prefix_numbers(ts, a, a + 1);
            lemma_prefix_numbers(ts, a + 1, b);
            assert(ts.subrange(a, a + 1) =~= seq![ts[a]]);
        }
        assert(marked_from(ts, k + 1) == before + name + named(mid) + after);
        // Replacing it leaves the texts around it as they were.
        let off = named_offset(ts, k);
        assert(off == before.len());
        assert(replace_range(
            before + name + named(mid) + after,
            off,
            name.len() as int,
            positional_marker(),
        ) =~= before + positional_marker() + named(mid) + after);
        assert(positional(ts.skip(a)) == positional_marker() + positional(mid) + after) by {
            assert(ts.skip(a) =~= seq![ts[a]] + mid + ts.skip(b));
            lemma_concat(seq![ts[a]], mid);
            lemma_concat(seq![ts[a]] + mid, ts.skip(b));
        }
        assert(before + positional_marker() + named(mid) + after =~= before + (positional_marker()
            + positional(mid) + after));
    }
}

/// The positional text is the named text with every placeholder's name
/// replaced by the marker: each name whole, at its offset, and nothing else
/// changed.
pub proof fn lemma_markers_replace_names(ts: Seq<Token>)
    ensures
        positional(ts) == marked_from(ts, 0),
{
    lemma_marked_from(ts, 0);
    let a = cut(ts, 0);
    assert(numbers(ts.take(a)).len() == 0) by {
        if 0 < numbers(ts).len() {
            lemma_placeholder_index(ts, 0);
            assert(numbers(ts).take(0).len() == 0);
        } else {
            assert(ts.take(a) =~= ts);
        }
    }
    lemma_plain_text(ts.take(a));
    assert(ts =~= ts.take(a) + ts.skip(a));
    lemma_concat(ts.take(a), ts.skip(a));
}

} // verus!
