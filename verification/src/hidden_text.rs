//! A text of which more letters show as the player gets on.

use vstd::prelude::*;

verus! {

/// The character that stands for a hidden one.
pub const BLANK: char = '_';

/// One character of the text, shown or hidden.
#[derive(Clone, Copy, Debug, PartialEq, Eq, Structural)]
pub struct HiddenChar {
    pub c: char,
    pub hidden: bool,
}

impl HiddenChar {
    /// What is shown of the character.
    pub open spec fn shown(self) -> char {
        if self.hidden {
            BLANK
        } else {
            self.c
        }
    }

    /// What is shown of the character.
    pub fn char(&self) -> (c: char)
        ensures
            c == self.shown(),
    {
        if self.hidden {
            BLANK
        } else {
            self.c
        }
    }
}

/// A text, character by character.
pub struct RevealedText {
    chars: Vec<HiddenChar>,
}

/// Appends one character with `String::push`: the text grows by `c`.
#[verifier::external_body]
fn push_char(s: &mut String, c: char)
    ensures
        final(s)@ == old(s)@.push(c),
{
    s.push(c);
}

/// `a / b` rounded to the nearest number, a half upwards.
pub open spec fn rounded_div(a: nat, b: nat) -> nat {
    if 2 * (a % b) >= b {
        a / b + 1
    } else {
        a / b
    }
}

/// The number of characters to show of `n` when `num` of `den` parts are
/// done: `n * num / den`, rounded, and no more than `n`. Nothing is shown
/// where `den` is zero.
pub open spec fn ideal_count(n: nat, num: nat, den: nat) -> nat {
    if den == 0 {
        0
    } else if rounded_div(n * num, den) > n {
        n
    } else {
        rounded_div(n * num, den)
    }
}

impl RevealedText {
    /// The characters of the text.
    pub closed spec fn chars(&self) -> Seq<HiddenChar> {
        self.chars@
    }

    /// What is shown of the text.
    pub open spec fn shown_text(&self) -> Seq<char> {
        Seq::new(self.chars().len(), |i: int| self.chars()[i].shown())
    }

    /// How many characters are shown.
    pub open spec fn revealed(&self) -> nat {
        self.chars().filter(|c: HiddenChar| !c.hidden).len()
    }

    /// The text `s` with every character hidden.
    pub fn new(s: &str) -> (t: RevealedText)
        ensures
            t.chars().len() == s@.len(),
            forall|i: int|
                0 <= i < s@.len() ==> #[trigger] t.chars()[i] == (HiddenChar {
                    c: s@[i],
                    hidden: true,
                }),
    {
        let mut t = RevealedText { chars: Vec::new() };
        t.reset(s);
        t
    }

    /// Takes the text `s` in place of the one that is held, with every
    /// character hidden.
    pub fn reset(&mut self, s: &str)
        ensures
            final(self).chars().len() == s@.len(),
            forall|i: int|
                0 <= i < s@.len() ==> #[trigger] final(self).chars()[i] == (HiddenChar {
                    c: s@[i],
                    hidden: true,
                }),
    {
        let mut chars: Vec<HiddenChar> = Vec::new();
        let n = s.unicode_len();
        let mut i: usize = 0;
        while i < n
            invariant
                0 <= i <= n,
                n == s@.len(),
                chars@.len() == i,
                forall|j: int|
                    0 <= j < i ==> #[trigger] chars@[j] == (HiddenChar { c: s@[j], hidden: true }),
            decreases n - i,
        {
            chars.push(HiddenChar { c: s.get_char(i), hidden: true });
            i += 1;
        }
        self.chars = chars;
    }

    /// The number of characters.
    pub fn len(&self) -> (n: usize)
        ensures
            n == self.chars().len(),
    {
        self.chars.len()
    }

    /// What is shown of the text: each shown character as it is, `BLANK`
    /// for each hidden one.
    pub fn text(&self) -> (s: String)
        ensures
            s@ == self.shown_text(),
    {
        let mut s = String::new();
        let mut i: usize = 0;
        while i < self.chars.len()
            invariant
                0 <= i <= self.chars@.len(),
                s@.len() == i,
                forall|j: int| 0 <= j < i ==> #[trigger] s@[j] == self.chars@[j].shown(),
            decreases self.chars@.len() - i,
        {
            push_char(&mut s, self.chars[i].char());
            i += 1;
        }
        assert(s@ =~= self.shown_text());
        s
    }

    /// How many characters are shown.
    pub fn revealed_count(&self) -> (n: usize)
        ensures
            n == self.revealed(),
    {
        let ghost shown = |c: HiddenChar| !c.hidden;
        let mut n: usize = 0;
        let mut i: usize = 0;
        proof {
            reveal(Seq::filter);
            assert(self.chars@.take(0).filter(shown).len() == 0);
        }
        while i < self.chars.len()
            invariant
                0 <= i <= self.chars@.len(),
                shown == |c: HiddenChar| !c.hidden,
                n == self.chars@.take(i as int).filter(shown).len(),
                n <= i,
            decreases self.chars@.len() - i,
        {
            proof {
                assert(self.chars@.take(i + 1) =~= self.chars@.take(i as int).push(
                    self.chars@[i as int],
                ));
                Seq::lemma_filter_len_push(
                    self.chars@.take(i as int),
                    shown,
                    self.chars@[i as int],
                );
            }
            if !self.chars[i].hidden {
                n += 1;
            }
            i += 1;
        }
        assert(self.chars@.take(i as int) =~= self.chars@);
        n
    }

    /// How many characters to show when `num` of `den` parts are done.
    pub fn ideal(&self, num: usize, den: usize) -> (n: usize)
        ensures
            n == ideal_count(self.chars().len(), num as nat, den as nat),
    {
        if den == 0 {
            return 0;
        }
        let len: u128 = self.chars.len() as u128;
        let parts: u128 = num as u128;
        let whole: u128 = den as u128;
        assert(len * parts <= 0xffff_ffff_ffff_ffff * 0xffff_ffff_ffff_ffff) by (nonlinear_arith)
            requires
                0 <= len <= 0xffff_ffff_ffff_ffff,
                0 <= parts <= 0xffff_ffff_ffff_ffff,
        ;
        let product: u128 = len * parts;
        let quotient: u128 = product / whole;
        let rest: u128 = product % whole;
        let rounded: u128 = if 2 * rest >= whole {
            quotient + 1
        } else {
            quotient
        };
        if rounded > len {
            self.chars.len()
        } else {
            rounded as usize
        }
    }

    /// One step towards showing `n_ideal` characters: where fewer are
    /// shown, the character at `pick` is shown; where more are shown, it is
    /// hidden. The result says whether `n_ideal` characters were shown
    /// already, in which case nothing changes.
    pub fn nudge(&mut self, n_ideal: usize, pick: usize) -> (settled: bool)
        requires
            pick < old(self).chars().len(),
        ensures
            settled == (old(self).revealed() == n_ideal),
            final(self).chars() == if old(self).revealed() == n_ideal {
                old(self).chars()
            } else {
                old(self).chars().update(
                    pick as int,
                    HiddenChar {
                        c: old(self).chars()[pick as int].c,
                        hidden: old(self).revealed() > n_ideal,
                    },
                )
            },
    {
        let n_rev = self.revealed_count();
        if n_rev == n_ideal {
            return true;
        }
        let c = self.chars[pick].c;
        self.chars.set(pick, HiddenChar { c, hidden: n_rev > n_ideal });
        false
    }
}

} // verus!
