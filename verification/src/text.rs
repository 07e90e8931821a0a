//! Text as sequences of characters, and the dictionary order that keeps
//! ids sorted.

use vstd::prelude::*;
use vstd::std_specs::iter::IteratorSpec;
use vstd::string::*;

verus! {

/// How one text stands to another in the dictionary order of code points.
#[derive(Debug, Clone, Copy, PartialEq, Eq, Structural)]
pub enum TextOrder {
    Before,
    Same,
    After,
}

/// Strict dictionary order on texts: the first differing character decides
/// by code point, and a proper prefix comes before its extensions.
pub open spec fn text_lt(a: Seq<char>, b: Seq<char>) -> bool
    decreases a.len(),
{
    if b.len() == 0 {
        false
    } else if a.len() == 0 {
        true
    } else if a[0] == b[0] {
        text_lt(a.drop_first(), b.drop_first())
    } else {
        (a[0] as u32) < (b[0] as u32)
    }
}

/// Different characters have different code points.
pub proof fn lemma_code_points_differ(p: char, q: char)
    ensures
        p != q ==> (p as u32) != (q as u32),
{
    vstd::utf8::char_u32_cast(p, p as u32);
    vstd::utf8::char_u32_cast(q, q as u32);
}

/// No text comes before itself.
pub proof fn lemma_text_lt_irreflexive(a: Seq<char>)
    ensures
        !text_lt(a, a),
    decreases a.len(),
{
    if a.len() > 0 {
        lemma_text_lt_irreflexive(a.drop_first());
    }
}

/// Of two different texts exactly one comes before the other.
pub proof fn lemma_text_lt_total(a: Seq<char>, b: Seq<char>)
    ensures
        a != b ==> (text_lt(a, b) <==> !text_lt(b, a)),
        a == b ==> !text_lt(a, b) && !text_lt(b, a),
    decreases a.len(),
{
    if a == b {
        lemma_text_lt_irreflexive(a);
    } else if a.len() > 0 && b.len() > 0 {
        if a[0] == b[0] {
            if a.drop_first() == b.drop_first() {
                assert(a =~= seq![a[0]] + a.drop_first());
                assert(b =~= seq![b[0]] + b.drop_first());
            }
            lemma_text_lt_total(a.drop_first(), b.drop_first());
        } else {
            lemma_code_points_differ(a[0], b[0]);
        }
    } else {
        assert(a.len() == 0 && b.len() == 0 ==> a =~= b);
    }
}

/// The order is transitive.
pub proof fn lemma_text_lt_transitive(a: Seq<char>, b: Seq<char>, c: Seq<char>)
    requires
        text_lt(a, b),
        text_lt(b, c),
    ensures
        text_lt(a, c),
    decreases a.len(),
{
    if a.len() > 0 && a[0] == b[0] && b[0] == c[0] {
        lemma_text_lt_transitive(a.drop_first(), b.drop_first(), c.drop_first());
    }
}

/// Whether one character's code point is below another's.
fn char_before(p: char, q: char) -> (r: bool)
    ensures
        r == ((p as u32) < (q as u32)),
{
    p < q
}

/// Compares two strings character by character.
pub fn text_order(a: &str, b: &str) -> (r: TextOrder)
    ensures
        r == TextOrder::Before <==> text_lt(a@, b@),
        r == TextOrder::Same <==> a@ == b@,
        r == TextOrder::After <==> text_lt(b@, a@),
{
    let mut left = a.chars();
    let mut right = b.chars();
    let ghost mut done: int = 0;
    proof {
        lemma_text_lt_total(a@, b@);
        assert(a@.skip(0) =~= a@);
        assert(b@.skip(0) =~= b@);
    }
    loop
        invariant
            0 <= done <= a@.len(),
            done <= b@.len(),
            left.remaining() == a@.skip(done),
            right.remaining() == b@.skip(done),
            text_lt(a@, b@) == text_lt(a@.skip(done), b@.skip(done)),
            text_lt(b@, a@) == text_lt(b@.skip(done), a@.skip(done)),
            (a@ == b@) == (a@.skip(done) == b@.skip(done)),
            text_lt(a@, b@) ==> a@ != b@ && !text_lt(b@, a@),
            text_lt(b@, a@) ==> a@ != b@ && !text_lt(a@, b@),
        decreases a@.len() - done,
    {
        let ghost rest_a = a@.skip(done);
        let ghost rest_b = b@.skip(done);
        let x = left.next();
        let y = right.next();
        match (x, y) {
            (None, None) => {
                assert(rest_a =~= rest_b);
                return TextOrder::Same;
            },
            (None, Some(_)) => {
                return TextOrder::Before;
            },
            (Some(_), None) => {
                return TextOrder::After;
            },
            (Some(p), Some(q)) => {
                if p != q {
                    proof {
                        lemma_code_points_differ(p, q);
                        assert(rest_a.len() > 0 && rest_a[0] == p);
                        assert(rest_b.len() > 0 && rest_b[0] == q);
                        assert(rest_a != rest_b);
                    }
                    return if char_before(p, q) {
                        TextOrder::Before
                    } else {
                        TextOrder::After
                    };
                }
                proof {
                    assert(rest_a.drop_first() =~= a@.skip(done + 1));
                    assert(rest_b.drop_first() =~= b@.skip(done + 1));
                    assert(rest_a =~= seq![p] + rest_a.drop_first());
                    assert(rest_b =~= seq![q] + rest_b.drop_first());
                    done = done + 1;
                }
            },
        }
    }
}

/// Whether two strings hold the same text.
pub fn same_text(a: &str, b: &str) -> (r: bool)
    ensures
        r == (a@ == b@),
{
    text_order(a, b) == TextOrder::Same
}

/// The texts one after the other, with the separator between every two.
pub open spec fn joined(items: Seq<Seq<char>>, separator: Seq<char>) -> Seq<char>
    decreases items.len(),
{
    if items.len() == 0 {
        Seq::empty()
    } else if items.len() == 1 {
        items[0]
    } else {
        joined(items.drop_last(), separator) + separator + items.last()
    }
}

/// Joins the strings of a list, with the separator between every two.
pub fn join_texts(items: &Vec<String>, separator: &str) -> (r: String)
    ensures
        r@ == joined(items.deep_view(), separator@),
{
    let mut r = String::new();
    if items.len() == 0 {
        return r;
    }
    r.append(items[0].as_str());
    let mut i: usize = 1;
    proof {
        assert(items.deep_view().take(1)[0] == items@[0]@);
        assert(r@ =~= items@[0]@);
    }
    while i < items.len()
        invariant
            1 <= i <= items@.len(),
            r@ == joined(items.deep_view().take(i as int), separator@),
        decreases items@.len() - i,
    {
        proof {
            let longer = items.deep_view().take(i + 1);
            assert(longer.drop_last() =~= items.deep_view().take(i as int));
            assert(longer.last() == items@[i as int]@);
        }
        r.append(separator);
        r.append(items[i].as_str());
        i = i + 1;
    }
    proof {
        assert(items.deep_view().take(items@.len() as int) =~= items.deep_view());
    }
    r
}

} // verus!
