//! Cutting a text to a token budget. How tokens are counted and how a text
//! is cut are the caller's; this module decides when a text is cut and
//! guarantees what comes out fits.
use vstd::prelude::*;

verus! {

/// A token budget: its size, how a text's tokens are counted, and how a
/// text is cut to a given number of tokens.
pub struct TokenBudget<C, T> {
    pub max_tokens: usize,
    pub count_tokens: C,
    pub cut: T,
}

impl<C: Fn(&str) -> usize, T: Fn(&str, usize) -> String> TokenBudget<C, T> {
    /// `n` is a token count of the text `s`.
    pub open spec fn counts(&self, s: Seq<char>, n: usize) -> bool {
        exists|x: &str| x@ == s && #[trigger] self.count_tokens.ensures((x,), n)
    }

    /// The text `s` takes at most `max_tokens` tokens.
    pub open spec fn fits(&self, s: Seq<char>) -> bool {
        forall|n: usize| #[trigger] self.counts(s, n) ==> n <= self.max_tokens
    }

    /// What the budget relies on: counting and cutting take any text; a
    /// count depends on the text alone; a text cut to `b` tokens takes at
    /// most `b`.
    pub open spec fn wf(&self) -> bool {
        &&& forall|x: &str| #[trigger] self.count_tokens.requires((x,))
        &&& forall|x: &str, b: usize| #[trigger] self.cut.requires((x, b))
        &&& forall|x: &str, y: &str, n: usize, m: usize|
            x@ == y@ && #[trigger] self.count_tokens.ensures((x,), n) && #[trigger] self.count_tokens.ensures(
                (y,),
                m,
            ) ==> n == m
        &&& forall|x: &str, b: usize, out: String, n: usize|
            #[trigger] self.cut.ensures((x, b), out) && #[trigger] self.counts(out@, n) ==> n <= b
    }

    /// `r` is `text` cut to the budget: `text` itself when it fits,
    /// otherwise what the cut makes of it; either way it fits.
    pub open spec fn is_cut_of(&self, text: Seq<char>, r: String) -> bool {
        &&& self.fits(r@)
        &&& self.fits(text) ==> r@ == text
        &&& !self.fits(text) ==> exists|x: &str| x@ == text && #[trigger] self.cut.ensures(
            (x, self.max_tokens),
            r,
        )
    }

    /// `text` cut to the budget (see [`Self::is_cut_of`]).
    pub fn cut_to_budget(&self, text: &str) -> (r: String)
        requires
            self.wf(),
        ensures
            self.is_cut_of(text@, r),
    {
        let n = (self.count_tokens)(text);
        if n <= self.max_tokens {
            proof {
                assert forall|m: usize| #[trigger] self.counts(text@, m) implies m <= self.max_tokens by {
                    let y = choose|y: &str| y@ == text@ && self.count_tokens.ensures((y,), m);
                    assert(self.count_tokens.ensures((text,), n));
                }
            }
            text.to_string()
        } else {
            let r = (self.cut)(text, self.max_tokens);
            proof {
                assert(self.counts(text@, n));
                assert forall|m: usize| #[trigger] self.counts(r@, m) implies m <= self.max_tokens by {
                    assert(self.cut.ensures((text, self.max_tokens), r));
                }
            }
            r
        }
    }
}

} // verus!
