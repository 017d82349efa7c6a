//! What holds of words, lists and numerals.

use crate::text::{
    blank, decimal, digit, joined, lemma_decimal_digits, lemma_word_len, present, white_space,
    word_len, words,
};
use vstd::prelude::*;

verus! {

/// White space is what Unicode counts as such: the space and the no-break spaces, the controls from
/// tab to carriage return, the next-line control, and the spaces and separators further up.
pub proof fn law_white_space_is_what_unicode_counts_as_such(c: char)
    ensures
        white_space(c) <==> {
            ||| c == ' '
            ||| '\t' <= c <= '\r'
            ||| c == '\u{85}'
            ||| c == '\u{a0}'
            ||| c == '\u{1680}'
            ||| '\u{2000}' <= c <= '\u{200a}'
            ||| c == '\u{2028}' || c == '\u{2029}'
            ||| c == '\u{202f}' || c == '\u{205f}'
            ||| c == '\u{3000}'
        },
{
}

/// A text without white space in it is one word, and the empty text none.
pub proof fn law_a_run_without_white_space_is_one_word(s: Seq<char>)
    requires
        forall|i: int| 0 <= i < s.len() ==> !white_space(#[trigger] s[i]),
    ensures
        words(s) == if s.len() == 0 {
            Seq::<Seq<char>>::empty()
        } else {
            seq![s]
        },
{
    if s.len() > 0 {
        lemma_word_len(s);
        let n = word_len(s) as int;
        if n < s.len() {
            assert(white_space(s[n]));
        }
        assert(s.take(n) =~= s);
        assert(s.skip(n) =~= Seq::<char>::empty());
        assert(words(s.skip(n)) =~= Seq::<Seq<char>>::empty());
        assert(words(s) =~= seq![s]);
    }
}

/// White space parts the words before it from those behind it, and is in none of them.
pub proof fn law_white_space_parts_words(before: Seq<char>, c: char, behind: Seq<char>)
    requires
        white_space(c),
    ensures
        words(before.push(c) + behind) == words(before) + words(behind),
    decreases before.len(),
{
    let whole = before.push(c) + behind;
    if before.len() == 0 {
        assert(whole[0] == c);
        assert(whole.skip(1) =~= behind);
        assert(words(before) + words(behind) =~= words(behind));
    } else if white_space(before[0]) {
        assert(whole[0] == before[0]);
        law_white_space_parts_words(before.skip(1), c, behind);
        assert(whole.skip(1) =~= before.skip(1).push(c) + behind);
    } else {
        assert(whole[0] == before[0]);
        lemma_word_len(before);
        lemma_word_len(whole);
        let n = word_len(before) as int;
        let m = word_len(whole) as int;
        assert(n == m) by {
            if m < n {
                assert(whole[m] == before[m]);
            }
            if n < m {
                if n < before.len() {
                    assert(whole[n] == before[n]);
                } else {
                    assert(whole[n] == c);
                }
            }
        }
        assert(whole.take(n) =~= before.take(n));
        let rest = before.skip(n);
        law_white_space_parts_words(rest, c, behind);
        assert(whole.skip(n) =~= rest.push(c) + behind);
        assert(words(whole) =~= words(before) + words(behind));
    }
}

/// Nothing but the parts and a separator between each two stands in a joined list: an empty list
/// gives nothing, one part gives itself, and two lists are joined by one separator.
pub proof fn law_joining_puts_one_separator_between_parts(
    a: Seq<Seq<char>>,
    b: Seq<Seq<char>>,
    sep: Seq<char>,
)
    ensures
        a.len() == 0 ==> joined(a, sep) == Seq::<char>::empty(),
        a.len() == 1 ==> joined(a, sep) == a[0],
        a.len() > 0 && b.len() > 0 ==> joined(a + b, sep) == joined(a, sep) + sep + joined(b, sep),
    decreases b.len(),
{
    if a.len() > 0 && b.len() > 0 {
        let all = a + b;
        assert(all.last() == b.last());
        if b.len() == 1 {
            assert(all.drop_last() =~= a);
        } else {
            assert(all.drop_last() =~= a + b.drop_last());
            law_joining_puts_one_separator_between_parts(a, b.drop_last(), sep);
            assert(joined(all, sep) =~= joined(a, sep) + sep + joined(b, sep));
        }
    }
}

/// The texts that are there are kept in order, and nothing else is.
pub proof fn law_texts_that_are_there_are_kept(
    a: Seq<Option<Seq<char>>>,
    b: Seq<Option<Seq<char>>>,
)
    ensures
        a.len() == 0 ==> present(a) == Seq::<Seq<char>>::empty(),
        a.len() == 1 ==> present(a) == match a[0] {
            Some(text) => seq![text],
            None => Seq::<Seq<char>>::empty(),
        },
        present(a + b) == present(a) + present(b),
    decreases b.len(),
{
    if a.len() == 1 {
        assert(a.drop_last() =~= Seq::<Option<Seq<char>>>::empty());
        assert(present(a.drop_last()) =~= Seq::<Seq<char>>::empty());
        assert(present(a) =~= match a[0] {
            Some(text) => seq![text],
            None => Seq::<Seq<char>>::empty(),
        });
    }
    if b.len() == 0 {
        assert(a + b =~= a);
        assert(present(a) + present(b) =~= present(a));
    } else {
        assert((a + b).drop_last() =~= a + b.drop_last());
        assert((a + b).last() == b.last());
        law_texts_that_are_there_are_kept(a, b.drop_last());
        assert(present(a + b) =~= present(a) + present(b));
    }
}

/// The number that a run of digits stands for.
pub open spec fn number(digits: Seq<char>) -> int
    decreases digits.len(),
{
    if digits.len() == 0 {
        0
    } else {
        10 * number(digits.drop_last()) + (digits.last() as int - '0' as int)
    }
}

/// A numeral stands for its number, in digits alone, and has no leading zero.
pub proof fn law_numerals_stand_for_their_numbers(n: nat)
    ensures
        number(decimal(n)) == n,
        decimal(n).len() > 0,
        forall|i: int| 0 <= i < decimal(n).len() ==> '0' <= #[trigger] decimal(n)[i] <= '9',
        n > 0 ==> decimal(n)[0] != '0',
        n == 0 ==> decimal(n) == seq!['0'],
    decreases n,
{
    lemma_decimal_digits(n);
    if n < 10 {
        assert(decimal(n).drop_last() =~= Seq::<char>::empty());
        assert(decimal(n).last() == digit(n));
        assert(number(decimal(n).drop_last()) == 0);
    } else {
        law_numerals_stand_for_their_numbers(n / 10);
        assert(decimal(n).drop_last() =~= decimal(n / 10));
        assert(decimal(n)[0] == decimal(n / 10)[0]);
    }
}

/// A text is blank if it has no character but white space.
pub proof fn law_blank_texts_have_no_words(s: Seq<char>)
    ensures
        blank(s) <==> words(s).len() == 0,
    decreases s.len(),
{
    if s.len() > 0 {
        if white_space(s[0]) {
            law_blank_texts_have_no_words(s.skip(1));
            assert(blank(s) <==> blank(s.skip(1))) by {
                if blank(s.skip(1)) {
                    assert forall|i: int| 0 <= i < s.len() implies white_space(#[trigger] s[i]) by {
                        if i > 0 {
                            assert(s.skip(1)[i - 1] == s[i]);
                        }
                    }
                }
            }
        } else {
            lemma_word_len(s);
        }
    }
}

} // verus!
