//! The notation of an array of texts: `["a","b"]`. Blanks may stand between
//! the tokens. A text holds neither a double quote nor a backslash.

use vstd::prelude::*;
use vstd::string::StrSliceExecFns;
use vstd::string::StringExecFns;

use crate::text::{to_chars, views};

verus! {

/// Whether `c` is a blank: a space, a tab or a line break.
pub open spec fn is_blank(c: char) -> bool {
    c == ' ' || c == '\t' || c == '\n' || c == '\r'
}

/// The first position at or after `pos` that holds no blank.
pub open spec fn skip_blanks(s: Seq<char>, pos: int) -> int
    decreases s.len() - pos,
{
    if 0 <= pos < s.len() && is_blank(s[pos]) {
        skip_blanks(s, pos + 1)
    } else {
        pos
    }
}

/// The position of the first double quote at or after `pos`; -1 where the
/// text ends or a backslash comes before one.
pub open spec fn closing_quote(s: Seq<char>, pos: int) -> int
    decreases s.len() - pos,
{
    if pos < 0 || pos >= s.len() {
        -1
    } else if s[pos] == '"' {
        pos
    } else if s[pos] == '\\' {
        -1
    } else {
        closing_quote(s, pos + 1)
    }
}

/// Whether a closing bracket stands at `pos` and only blanks follow it.
pub open spec fn closes_at(s: Seq<char>, pos: int) -> bool {
    0 <= pos < s.len() && s[pos] == ']' && skip_blanks(s, pos + 1) == s.len()
}

/// Skipping blanks never moves backwards, nor beyond the end, and stops
/// on a character that is no blank.
pub proof fn lemma_skip_blanks(s: Seq<char>, pos: int)
    ensures
        pos <= skip_blanks(s, pos),
        pos <= s.len() ==> skip_blanks(s, pos) <= s.len(),
        0 <= pos && skip_blanks(s, pos) < s.len() ==> !is_blank(s[skip_blanks(s, pos)]),
    decreases s.len() - pos,
{
    if 0 <= pos < s.len() && is_blank(s[pos]) {
        lemma_skip_blanks(s, pos + 1);
    }
}

/// A closing quote, where there is one, stands at or after the start and
/// inside the text.
pub proof fn lemma_closing_quote(s: Seq<char>, pos: int)
    ensures
        closing_quote(s, pos) == -1 || (pos <= closing_quote(s, pos) < s.len()),
    decreases s.len() - pos,
{
    if 0 <= pos < s.len() && s[pos] != '"' && s[pos] != '\\' {
        lemma_closing_quote(s, pos + 1);
    }
}

/// The items from `pos` on, added to `acc`: a quoted text, then either a
/// comma and more items or the closing bracket.
pub open spec fn items_from(s: Seq<char>, pos: int, acc: Seq<Seq<char>>) -> Option<
    Seq<Seq<char>>,
>
    decreases s.len() - pos,
{
    let a = skip_blanks(s, pos);
    if 0 <= pos && a < s.len() && s[a] == '"' {
        let e = closing_quote(s, a + 1);
        if e < 0 {
            None
        } else {
            let b = skip_blanks(s, e + 1);
            if b < s.len() && s[b] == ',' {
                proof {
                    lemma_skip_blanks(s, pos);
                    lemma_closing_quote(s, a + 1);
                    lemma_skip_blanks(s, e + 1);
                }
                items_from(s, b + 1, acc.push(s.subrange(a + 1, e)))
            } else if closes_at(s, b) {
                Some(acc.push(s.subrange(a + 1, e)))
            } else {
                None
            }
        }
    } else {
        None
    }
}

/// The texts that `s` lists, where `s` is the notation of an array.
pub open spec fn array_items(s: Seq<char>) -> Option<Seq<Seq<char>>> {
    let p = skip_blanks(s, 0);
    if p < s.len() && s[p] == '[' {
        if closes_at(s, skip_blanks(s, p + 1)) {
            Some(Seq::empty())
        } else {
            items_from(s, p + 1, Seq::empty())
        }
    } else {
        None
    }
}

/// Whether a text can stand between double quotes as it is.
pub open spec fn is_plain(item: Seq<char>) -> bool {
    forall|i: int| 0 <= i < item.len() ==> #[trigger] item[i] != '"' && item[i] != '\\'
}

/// Whether every text of `items` can stand between double quotes as it is.
pub open spec fn all_plain(items: Seq<Seq<char>>) -> bool {
    forall|i: int| 0 <= i < items.len() ==> is_plain(#[trigger] items[i])
}

/// The items between the brackets: each in double quotes, with a comma
/// before each but the first.
pub open spec fn items_text(items: Seq<Seq<char>>) -> Seq<char>
    decreases items.len(),
{
    if items.len() == 0 {
        Seq::empty()
    } else if items.len() == 1 {
        seq!['"'] + items[0] + seq!['"']
    } else {
        items_text(items.drop_last()) + seq![',', '"'] + items.last() + seq!['"']
    }
}

/// The notation of the array that holds `items`.
pub open spec fn array_text(items: Seq<Seq<char>>) -> Seq<char> {
    seq!['['] + items_text(items) + seq![']']
}

/// The comma that stands before every item but the first.
pub open spec fn separator(k: int) -> Seq<char> {
    if k > 0 {
        seq![',']
    } else {
        Seq::empty()
    }
}

/// Where in the notation of an array the `k`-th item starts.
pub open spec fn item_start(items: Seq<Seq<char>>, k: int) -> int {
    if k == 0 {
        1
    } else {
        items_text(items.take(k)).len() as int + 2
    }
}

/// The text of the first `k + 1` items is that of the first `k`, then the
/// separator, then the `k`-th item in double quotes.
pub proof fn lemma_items_text_step(items: Seq<Seq<char>>, k: int)
    requires
        0 <= k < items.len(),
    ensures
        items_text(items.take(k + 1)) == items_text(items.take(k)) + separator(k) + seq!['"']
            + items[k] + seq!['"'],
{
    let t = items.take(k + 1);
    assert(t.drop_last() =~= items.take(k));
    assert(t.last() == items[k]);
    if k == 0 {
        assert(t[0] == items[0]);
        assert(items_text(items.take(0)) =~= Seq::<char>::empty());
        assert(items_text(t) =~= items_text(items.take(k)) + separator(k) + seq!['"'] + items[k]
            + seq!['"']);
    } else {
        assert(items_text(t) =~= items_text(items.take(k)) + separator(k) + seq!['"'] + items[k]
            + seq!['"']);
    }
}

/// The text of the first `k` items opens that of the first `m`, for `k`
/// up to `m`.
pub proof fn lemma_items_text_prefix(items: Seq<Seq<char>>, k: int, m: int)
    requires
        0 <= k <= m <= items.len(),
    ensures
        items_text(items.take(k)).len() <= items_text(items.take(m)).len(),
        items_text(items.take(m)).take(items_text(items.take(k)).len() as int) == items_text(
            items.take(k),
        ),
    decreases m - k,
{
    let tk = items_text(items.take(k));
    let tm = items_text(items.take(m));
    if k == m {
        assert(tm.take(tk.len() as int) =~= tk);
    } else {
        lemma_items_text_prefix(items, k, m - 1);
        lemma_items_text_step(items, m - 1);
        let tp = items_text(items.take(m - 1));
        assert(tp.take(tk.len() as int) == tk);
        assert(tm.take(tk.len() as int) =~= tp.take(tk.len() as int));
    }
}

/// After a plain text that a double quote follows, the closing quote is
/// that double quote.
pub proof fn lemma_closing_quote_plain(s: Seq<char>, start: int, item: Seq<char>)
    requires
        0 <= start,
        start + item.len() < s.len(),
        s.subrange(start, start + item.len()) == item,
        is_plain(item),
        s[start + item.len()] == '"',
    ensures
        closing_quote(s, start) == start + item.len(),
    decreases item.len(),
{
    if item.len() > 0 {
        assert(s.subrange(start, start + item.len())[0] == s[start]);
        assert(item[0] != '"' && item[0] != '\\');
        let rest = item.drop_first();
        assert(s.subrange(start + 1, start + 1 + rest.len()) =~= rest);
        assert forall|i: int| 0 <= i < rest.len() implies #[trigger] rest[i] != '"' && rest[i]
            != '\\' by {
            assert(rest[i] == item[i + 1]);
        }
        lemma_closing_quote_plain(s, start + 1, rest);
    }
}

/// Reading the notation of an array from the start of its `k`-th item
/// gives the items from the `k`-th on.
pub proof fn lemma_items_from(items: Seq<Seq<char>>, k: int, acc: Seq<Seq<char>>)
    requires
        all_plain(items),
        0 <= k < items.len(),
    ensures
        items_from(array_text(items), item_start(items, k), acc) == Some(acc + items.skip(k)),
    decreases items.len() - k,
{
    let n = items.len() as int;
    let s = array_text(items);
    let t = items_text(items);
    let tk = items_text(items.take(k));
    let tk1 = items_text(items.take(k + 1));
    let item = items[k];
    let p = item_start(items, k);
    let e = p + 1 + item.len();
    assert(items.take(n) =~= items);
    lemma_items_text_step(items, k);
    lemma_items_text_prefix(items, k + 1, n);
    assert(is_plain(item));
    assert(tk1.len() == tk.len() + separator(k).len() + item.len() + 2);
    assert(1 + tk1.len() == e + 1);
    assert forall|j: int| 0 <= j < tk1.len() implies s[1 + j] == tk1[j] by {
        assert(t.take(tk1.len() as int)[j] == t[j]);
    }
    assert(s[p] == '"') by {
        assert(tk1[p - 1] == '"');
    }
    assert(s[e] == '"') by {
        assert(tk1[e - 1] == '"');
    }
    assert(s.subrange(p + 1, e) =~= item) by {
        assert forall|j: int| 0 <= j < item.len() implies s.subrange(p + 1, e)[j] == item[j] by {
            assert(tk1[p + j] == item[j]);
        }
    }
    lemma_closing_quote_plain(s, p + 1, item);
    assert(skip_blanks(s, p) == p);
    if k + 1 < n {
        lemma_items_text_step(items, k + 1);
        lemma_items_text_prefix(items, k + 2, n);
        let tk2 = items_text(items.take(k + 2));
        assert(tk2[tk1.len() as int] == ',');
        assert(s[e + 1] == ',') by {
            assert(t.take(tk2.len() as int)[tk1.len() as int] == t[tk1.len() as int]);
        }
        assert(skip_blanks(s, e + 1) == e + 1);
        assert(item_start(items, k + 1) == e + 2);
        lemma_items_from(items, k + 1, acc.push(item));
        assert(acc.push(item) + items.skip(k + 1) =~= acc + items.skip(k));
    } else {
        assert(tk1 == t);
        assert(s.len() == e + 2);
        assert(s[e + 1] == ']');
        assert(skip_blanks(s, e + 1) == e + 1);
        assert(skip_blanks(s, e + 2) == e + 2);
        assert(closes_at(s, e + 1));
        assert(acc.push(item) =~= acc + items.skip(k));
    }
}

/// Reading the notation of an array of plain texts gives those texts.
pub proof fn lemma_array_round_trip(items: Seq<Seq<char>>)
    requires
        all_plain(items),
    ensures
        array_items(array_text(items)) == Some(items),
{
    let s = array_text(items);
    assert(s[0] == '[');
    assert(skip_blanks(s, 0) == 0);
    if items.len() == 0 {
        assert(s =~= seq!['[', ']']);
        assert(skip_blanks(s, 1) == 1);
        assert(skip_blanks(s, 2) == 2);
        assert(closes_at(s, 1));
        assert(items =~= Seq::<Seq<char>>::empty());
    } else {
        lemma_items_text_step(items, 0);
        lemma_items_text_prefix(items, 1, items.len() as int);
        assert(items.take(items.len() as int) =~= items);
        let t = items_text(items);
        let t1 = items_text(items.take(1));
        assert(t1[0] == '"');
        assert(t.take(t1.len() as int)[0] == t[0]);
        assert(s[1] == '"');
        assert(skip_blanks(s, 1) == 1);
        assert(!closes_at(s, 1));
        lemma_items_from(items, 0, Seq::empty());
        assert(Seq::<Seq<char>>::empty() + items.skip(0) =~= items);
    }
}

fn skip_blanks_in(chars: &Vec<char>, pos: usize) -> (r: usize)
    requires
        pos <= chars@.len(),
    ensures
        r == skip_blanks(chars@, pos as int),
        pos <= r <= chars@.len(),
{
    let mut i: usize = pos;
    while i < chars.len() && (chars[i] == ' ' || chars[i] == '\t' || chars[i] == '\n' || chars[i]
        == '\r')
        invariant
            pos <= i <= chars@.len(),
            skip_blanks(chars@, i as int) == skip_blanks(chars@, pos as int),
        decreases chars@.len() - i,
    {
        i = i + 1;
    }
    i
}

fn closing_quote_in(chars: &Vec<char>, pos: usize) -> (r: Option<usize>)
    requires
        pos <= chars@.len(),
    ensures
        r matches Some(e) ==> closing_quote(chars@, pos as int) == e && pos <= e < chars@.len(),
        r is None ==> closing_quote(chars@, pos as int) == -1,
{
    let mut i: usize = pos;
    while i < chars.len()
        invariant
            pos <= i <= chars@.len(),
            closing_quote(chars@, i as int) == closing_quote(chars@, pos as int),
        decreases chars@.len() - i,
    {
        if chars[i] == '"' {
            return Some(i);
        }
        if chars[i] == '\\' {
            return None;
        }
        i = i + 1;
    }
    None
}

fn closes_at_in(chars: &Vec<char>, pos: usize) -> (r: bool)
    requires
        pos <= chars@.len(),
    ensures
        r == closes_at(chars@, pos as int),
{
    if pos < chars.len() && chars[pos] == ']' {
        skip_blanks_in(chars, pos + 1) == chars.len()
    } else {
        false
    }
}

/// Reads the notation of an array of texts.
pub fn parse_json_array(text: &str) -> (r: Option<Vec<String>>)
    ensures
        r matches Some(v) ==> array_items(text@) == Some(views(v@)),
        r is None ==> array_items(text@) is None,
{
    let chars = to_chars(text);
    let n = chars.len();
    let p = skip_blanks_in(&chars, 0);
    if p >= n || chars[p] != '[' {
        return None;
    }
    let q = skip_blanks_in(&chars, p + 1);
    let mut out: Vec<String> = Vec::new();
    if closes_at_in(&chars, q) {
        assert(views(out@) =~= Seq::<Seq<char>>::empty());
        return Some(out);
    }
    let mut pos: usize = p + 1;
    assert(views(out@) =~= Seq::<Seq<char>>::empty());
    loop
        invariant
            pos <= n,
            n == chars@.len(),
            chars@ == text@,
            items_from(text@, pos as int, views(out@)) == array_items(text@),
        decreases n - pos,
    {
        let a = skip_blanks_in(&chars, pos);
        if a >= n || chars[a] != '"' {
            return None;
        }
        match closing_quote_in(&chars, a + 1) {
            None => {
                return None;
            },
            Some(e) => {
                let item = text.substring_char(a + 1, e).to_owned();
                let ghost before = views(out@);
                out.push(item);
                assert(views(out@) =~= before.push(text@.subrange(a + 1, e as int)));
                let b = skip_blanks_in(&chars, e + 1);
                if b < n && chars[b] == ',' {
                    pos = b + 1;
                } else if closes_at_in(&chars, b) {
                    return Some(out);
                } else {
                    return None;
                }
            },
        }
    }
}

/// Writes the notation of the array that holds `items`.
pub fn array_to_string(items: &Vec<String>) -> (r: String)
    ensures
        r@ == array_text(views(items@)),
{
    proof {
        reveal_strlit("[");
        reveal_strlit("]");
        reveal_strlit("\"");
        reveal_strlit(",\"");
    }
    let mut out = String::new();
    out.append("[");
    let mut i: usize = 0;
    while i < items.len()
        invariant
            i <= items@.len(),
            out@ == seq!['['] + items_text(views(items@).take(i as int)),
            "\""@ == seq!['"'],
            ",\""@ == seq![',', '"'],
        decreases items@.len() - i,
    {
        let ghost done = views(items@).take(i as int);
        let ghost next = views(items@).take(i + 1);
        assert(next.drop_last() =~= done);
        assert(next.last() == items@[i as int]@);
        if i == 0 {
            out.append("\"");
        } else {
            out.append(",\"");
        }
        out.append(items[i].as_str());
        out.append("\"");
        proof {
            if i == 0 {
                assert(done =~= Seq::<Seq<char>>::empty());
                assert(next[0] == items@[0]@);
                assert(out@ =~= seq!['['] + items_text(next));
            } else {
                assert(out@ =~= seq!['['] + items_text(next));
            }
        }
        i = i + 1;
    }
    assert(views(items@).take(i as int) =~= views(items@));
    out.append("]");
    out
}

} // verus!
