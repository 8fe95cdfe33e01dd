use vstd::arithmetic::div_mod::{lemma_mod_add_multiples_vanish, lemma_mod_self_0, lemma_small_mod};
use vstd::prelude::*;
use vstd::string::{StrSliceExecFns, StringExecFns, StringSliceAdditionalSpecFns};

verus! {

/// The suggestion list shown below a text input while the user types: the
/// candidates, the highlighted one, and whether it opened this frame (when a
/// Tab still belongs to the input and does not accept).
pub struct SuggestionPopup {
    pub options: Vec<String>,
    pub selected: usize,
    pub first_frame: bool,
}

impl SuggestionPopup {
    pub open spec fn wf(&self) -> bool {
        self.selected < self.options.len()
    }

    /// A popup over `options`, with the first highlighted; none when there
    /// is nothing to suggest.
    pub fn open(options: Vec<String>) -> (r: Option<Self>)
        ensures
            options@.len() == 0 <==> r is None,
            r matches Some(p) ==> p.wf() && p.options@ == options@ && p.selected == 0 && p.first_frame,
    {
        if options.len() == 0 {
            None
        } else {
            Some(SuggestionPopup { options, selected: 0, first_frame: true })
        }
    }

    /// Highlights the next candidate, wrapping from the last to the first.
    pub fn select_next(&mut self)
        requires
            old(self).wf(),
        ensures
            final(self).wf(),
            final(self).options == old(self).options,
            final(self).first_frame == old(self).first_frame,
            final(self).selected == (old(self).selected + 1) % (old(self).options.len() as int),
    {
        let n = self.options.len();
        if self.selected + 1 == n {
            self.selected = 0;
            proof {
                lemma_mod_self_0(n as int);
            }
        } else {
            self.selected = self.selected + 1;
            proof {
                lemma_small_mod(self.selected as nat, n as nat);
            }
        }
    }

    /// Highlights the previous candidate, wrapping from the first to the
    /// last.
    pub fn select_previous(&mut self)
        requires
            old(self).wf(),
        ensures
            final(self).wf(),
            final(self).options == old(self).options,
            final(self).first_frame == old(self).first_frame,
            final(self).selected == (old(self).selected + old(self).options.len() - 1) % (
            old(self).options.len() as int),
    {
        let n = self.options.len();
        if self.selected == 0 {
            self.selected = n - 1;
            proof {
                lemma_small_mod((n - 1) as nat, n as nat);
            }
        } else {
            self.selected = self.selected - 1;
            proof {
                lemma_mod_add_multiples_vanish(self.selected as int, n as int);
                lemma_small_mod(self.selected as nat, n as nat);
            }
        }
    }

    /// Whether a Tab accepts the highlighted candidate: not in the frame
    /// the popup opened.
    pub fn tab_accepts(&self) -> (r: bool)
        ensures
            r == !self.first_frame,
    {
        !self.first_frame
    }

    /// Marks the end of a frame with the popup shown.
    pub fn end_frame(&mut self)
        ensures
            final(self).options == old(self).options,
            final(self).selected == old(self).selected,
            !final(self).first_frame,
    {
        self.first_frame = false;
    }

    /// Completes `text` with the clicked candidate, or the highlighted one
    /// when none was clicked; returns the new length of `text` in
    /// characters, where the text cursor goes.
    pub fn accept(&self, text: &mut String, clicked: Option<usize>) -> (end: usize)
        requires
            self.wf(),
            clicked matches Some(i) ==> i < self.options.len(),
        ensures
            final(text)@ == old(text)@ + self.options[match clicked {
                Some(i) => i as int,
                None => self.selected as int,
            }]@,
            end == final(text)@.len(),
    {
        let i = match clicked {
            Some(i) => i,
            None => self.selected,
        };
        text.append(self.options[i].as_str());
        text.as_str().unicode_len()
    }
}

/// Whether the bytes `sub` occur in `parent` at byte `i`.
pub open spec fn bytes_at(parent: Seq<u8>, sub: Seq<u8>, i: int) -> bool {
    0 <= i && i + sub.len() <= parent.len() && parent.subrange(i, i + sub.len()) == sub
}

/// The byte range of the first occurrence of `sub` within `parent`.
pub fn str_range(parent: &str, sub: &str) -> (r: Option<core::ops::Range<usize>>)
    ensures
        match r {
            Some(range) => {
                &&& bytes_at(parent.spec_bytes(), sub.spec_bytes(), range.start as int)
                &&& range.end == range.start + sub.spec_bytes().len()
                &&& forall|i: int| 0 <= i < range.start ==> !bytes_at(parent.spec_bytes(), sub.spec_bytes(), i)
            },
            None => forall|i: int| !bytes_at(parent.spec_bytes(), sub.spec_bytes(), i),
        },
{
    let p = parent.as_bytes();
    let s = sub.as_bytes();
    let n = p.len();
    let m = s.len();
    if m > n {
        return None;
    }
    let mut beg: usize = 0;
    while beg <= n - m
        invariant
            p@ == parent.spec_bytes(),
            s@ == sub.spec_bytes(),
            n == p@.len(),
            m == s@.len(),
            m <= n,
            forall|i: int| 0 <= i < beg ==> !bytes_at(p@, s@, i),
        decreases n - m + 1 - beg,
    {
        let mut k: usize = 0;
        while k < m && p[beg + k] == s[k]
            invariant
                beg + m <= n,
                n == p@.len(),
                m == s@.len(),
                0 <= k <= m,
                forall|j: int| 0 <= j < k ==> p@[beg + j] == s@[j],
            decreases m - k,
        {
            k = k + 1;
        }
        if k == m {
            assert(p@.subrange(beg as int, beg + m) =~= s@);
            return Some(beg..beg + m);
        }
        assert(p@.subrange(beg as int, beg + m)[k as int] != s@[k as int]);
        beg = beg + 1;
    }
    None
}

} // verus!
