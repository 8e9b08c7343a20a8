//! Texts in a row, each with its length before it: a notation that can
//! hold any text and is read back without loss.

use vstd::prelude::*;
use vstd::string::StringExecFns;

use crate::commit::{field, fields_text, push_field};
use crate::decimal::{
    digit_of, digits_value, is_digit, lemma_nat_digits, lemma_prefix_value, nat_digits,
};
use crate::text::{chars_to_string, to_chars, views};
use crate::values::digits_end;

verus! {

/// The field that starts at `pos`, and where the next one starts: digits
/// that give a length, a colon, as many characters as the length says,
/// and a comma.
pub open spec fn field_at(s: Seq<char>, pos: int) -> Option<(Seq<char>, int)> {
    let e = digits_end(s, pos);
    if 0 <= pos && pos < e && e < s.len() && s[e] == ':' {
        let n = digits_value(s.subrange(pos, e));
        if e + 1 + n < s.len() && s[e + 1 + n] == ',' {
            Some((s.subrange(e + 1, e + 1 + n), e + 2 + n))
        } else {
            None
        }
    } else {
        None
    }
}

/// The fields of `s` from `pos` to its end, added to `acc`.
pub open spec fn fields_from(s: Seq<char>, pos: int, acc: Seq<Seq<char>>) -> Option<
    Seq<Seq<char>>,
>
    decreases s.len() - pos,
{
    if pos < 0 || pos > s.len() {
        None
    } else if pos == s.len() {
        Some(acc)
    } else {
        match field_at(s, pos) {
            None => None,
            Some(found) => if found.1 > pos {
                fields_from(s, found.1, acc.push(found.0))
            } else {
                None
            },
        }
    }
}

/// The fields that a text holds, where it is a row of fields.
pub open spec fn text_fields(s: Seq<char>) -> Option<Seq<Seq<char>>> {
    fields_from(s, 0, Seq::empty())
}

/// A run of `k` digits that a character which is no digit follows, or the
/// end, ends where the run ends.
pub proof fn lemma_digits_end(s: Seq<char>, pos: int, k: int)
    requires
        0 <= pos,
        0 <= k,
        pos + k <= s.len(),
        forall|j: int| pos <= j < pos + k ==> is_digit(#[trigger] s[j]),
        pos + k < s.len() ==> !is_digit(s[pos + k]),
    ensures
        digits_end(s, pos) == pos + k,
    decreases k,
{
    if k > 0 {
        assert(is_digit(s[pos]));
        lemma_digits_end(s, pos + 1, k - 1);
    }
}

/// A field that stands in a text after `before` is read back as it was
/// written, whatever follows it.
pub proof fn lemma_field_at(before: Seq<char>, t: Seq<char>, after: Seq<char>)
    ensures
        field_at(before + field(t) + after, before.len() as int) == Some(
            (t, (before.len() + field(t).len()) as int),
        ),
{
    let s = before + field(t) + after;
    let p = before.len() as int;
    let digits = nat_digits(t.len());
    let d = digits.len() as int;
    lemma_nat_digits(t.len());
    assert(field(t).len() == d + 1 + t.len() + 1);
    assert forall|j: int| p <= j < p + d implies is_digit(#[trigger] s[j]) by {
        assert(s[j] == digits[j - p]);
    }
    assert(s[p + d] == ':');
    lemma_digits_end(s, p, d);
    assert(s.subrange(p, p + d) =~= digits);
    assert(s[p + d + 1 + t.len()] == ',');
    assert(s.subrange(p + d + 1, p + d + 1 + t.len()) =~= t);
}

/// A row of fields starts with its first field.
pub proof fn lemma_fields_text_first(items: Seq<Seq<char>>)
    requires
        items.len() > 0,
    ensures
        fields_text(items) == field(items[0]) + fields_text(items.drop_first()),
    decreases items.len(),
{
    if items.len() == 1 {
        assert(items.drop_last() =~= Seq::<Seq<char>>::empty());
        assert(items.drop_first() =~= Seq::<Seq<char>>::empty());
        assert(fields_text(items) =~= field(items[0]) + fields_text(items.drop_first()));
    } else {
        lemma_fields_text_first(items.drop_last());
        assert(items.drop_last().drop_first() =~= items.drop_first().drop_last());
        assert(items.drop_last()[0] == items[0]);
        assert(items.drop_first().last() == items.last());
        assert(fields_text(items) =~= field(items[0]) + fields_text(items.drop_first()));
    }
}

/// A row of fields that stands at the end of a text after `before` is
/// read back as the texts that it was written from.
pub proof fn lemma_fields_from(before: Seq<char>, items: Seq<Seq<char>>, acc: Seq<Seq<char>>)
    ensures
        fields_from(before + fields_text(items), before.len() as int, acc) == Some(acc + items),
    decreases items.len(),
{
    let s = before + fields_text(items);
    if items.len() == 0 {
        assert(s =~= before);
        assert(acc + items =~= acc);
    } else {
        let rest = items.drop_first();
        lemma_fields_text_first(items);
        lemma_field_at(before, items[0], fields_text(rest));
        assert(s =~= before + field(items[0]) + fields_text(rest));
        lemma_nat_digits(items[0].len());
        let next = before + field(items[0]);
        assert(s =~= next + fields_text(rest));
        lemma_fields_from(next, rest, acc.push(items[0]));
        assert(acc.push(items[0]) + rest =~= acc + items);
    }
}

/// Reading what was written gives it back: the fields of the text of a
/// row of texts are those texts.
pub proof fn lemma_fields_round_trip(items: Seq<Seq<char>>)
    ensures
        text_fields(fields_text(items)) == Some(items),
{
    lemma_fields_from(Seq::empty(), items, Seq::empty());
    assert(Seq::<char>::empty() + fields_text(items) =~= fields_text(items));
    assert(Seq::<Seq<char>>::empty() + items =~= items);
}

/// Writes texts as a row of fields.
pub fn write_fields(items: &Vec<String>) -> (r: String)
    ensures
        r@ == fields_text(views(items@)),
{
    let ghost all = views(items@);
    let mut out = String::new();
    let mut i: usize = 0;
    assert(all.take(0) =~= Seq::<Seq<char>>::empty());
    assert(out@ =~= fields_text(all.take(0)));
    while i < items.len()
        invariant
            i <= items@.len(),
            all == views(items@),
            out@ == fields_text(all.take(i as int)),
        decreases items@.len() - i,
    {
        proof {
            assert(all.take(i + 1).drop_last() =~= all.take(i as int));
            assert(all.take(i + 1).last() == items@[i as int]@);
        }
        push_field(&mut out, items[i].as_str());
        i = i + 1;
    }
    assert(all.take(i as int) =~= all);
    out
}

/// Reads the length that stands at `pos`: where its digits end, and the
/// number that they give, unless that is more than the text is long.
fn read_length(chars: &Vec<char>, pos: usize) -> (r: (usize, Option<usize>))
    requires
        pos <= chars@.len(),
    ensures
        r.0 == digits_end(chars@, pos as int),
        pos <= r.0 <= chars@.len(),
        match r.1 {
            Some(n) => n == digits_value(chars@.subrange(pos as int, r.0 as int)) && n
                <= chars@.len(),
            None => digits_value(chars@.subrange(pos as int, r.0 as int)) > chars@.len(),
        },
{
    let n = chars.len();
    let mut e: usize = pos;
    let mut len: usize = 0;
    let mut too_long = false;
    assert(chars@.subrange(pos as int, pos as int) =~= Seq::<char>::empty());
    while e < n && '0' <= chars[e] && chars[e] <= '9'
        invariant
            pos <= e <= n,
            n == chars@.len(),
            digits_end(chars@, e as int) == digits_end(chars@, pos as int),
            !too_long ==> len == digits_value(chars@.subrange(pos as int, e as int)) && len <= n,
            too_long ==> digits_value(chars@.subrange(pos as int, e as int)) > n,
        decreases n - e,
    {
        let c = chars[e];
        let d: u128 = (c as u32 - '0' as u32) as u128;
        proof {
            let next = chars@.subrange(pos as int, e + 1);
            assert(next.drop_last() =~= chars@.subrange(pos as int, e as int));
            assert(next.last() == c);
            assert(digit_of(c) == d);
        }
        if !too_long {
            let wide: u128 = (len as u128) * 10 + d;
            if wide > n as u128 {
                too_long = true;
            } else {
                len = wide as usize;
            }
        }
        e = e + 1;
    }
    if too_long {
        (e, None)
    } else {
        (e, Some(len))
    }
}

/// Reads a row of fields.
pub fn read_fields(text: &str) -> (r: Option<Vec<String>>)
    ensures
        match text_fields(text@) {
            Some(items) => r matches Some(v) && views(v@) == items,
            None => r is None,
        },
{
    let chars = to_chars(text);
    let n = chars.len();
    let mut out: Vec<String> = Vec::new();
    let mut pos: usize = 0;
    assert(views(out@) =~= Seq::<Seq<char>>::empty());
    while pos < n
        invariant
            pos <= n,
            n == chars@.len(),
            chars@ == text@,
            fields_from(text@, pos as int, views(out@)) == text_fields(text@),
        decreases n - pos,
    {
        let (e, length) = read_length(&chars, pos);
        if e == pos || e >= n || chars[e] != ':' {
            return None;
        }
        let len = match length {
            Some(len) => len,
            None => {
                return None;
            },
        };
        if len >= n - e - 1 {
            return None;
        }
        if chars[e + 1 + len] != ',' {
            return None;
        }
        let item = chars_to_string(&chars, e + 1, e + 1 + len);
        let ghost before = views(out@);
        out.push(item);
        assert(views(out@) =~= before.push(text@.subrange(e + 1, e + 1 + len)));
        pos = e + 2 + len;
    }
    Some(out)
}

} // verus!
