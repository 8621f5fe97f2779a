use vstd::prelude::*;
use vstd::string::StrSliceExecFns;

verus! {

/// `w` stands in `s` at `pos`.
pub open spec fn matches_at(s: Seq<char>, pos: int, w: Seq<char>) -> bool {
    0 <= pos && pos + w.len() <= s.len() && s.subrange(pos, pos + w.len()) == w
}

/// A fixed word of the grammar.
#[derive(Clone, Copy, Debug)]
pub struct Keyword {
    pub value: &'static str,
}

impl Keyword {
    /// The connective between a quantity and what it measures.
    pub fn of() -> (r: Keyword)
        ensures
            r.value@ == "of"@,
    {
        Keyword { value: "of" }
    }

    /// The word that introduces a definition.
    pub fn define() -> (r: Keyword)
        ensures
            r.value@ == "of"@,
    {
        Keyword { value: "of" }
    }

    /// The word that introduces a consumption.
    pub fn eat() -> (r: Keyword)
        ensures
            r.value@ == "eat"@,
    {
        Keyword { value: "eat" }
    }

    /// The marker of an ingredient line.
    pub fn minus() -> (r: Keyword)
        ensures
            r.value@ == "-"@,
    {
        Keyword { value: "-" }
    }

    /// The position after the keyword, where it stands in `s` at `pos`.
    pub fn tag(&self, s: &Vec<char>, pos: usize) -> (r: Option<usize>)
        ensures
            matches_at(s@, pos as int, self.value@) ==> (r matches Some(e) && e == pos + self.value@.len()),
            !matches_at(s@, pos as int, self.value@) ==> r is None,
    {
        let n = self.value.unicode_len();
        if pos > s.len() || n > s.len() - pos {
            return None;
        }
        let mut k: usize = 0;
        while k < n
            invariant
                n == self.value@.len(),
                pos + n <= s.len(),
                k <= n,
                forall|j: int| 0 <= j < k ==> s@[pos + j] == self.value@[j],
            decreases n - k,
        {
            if s[pos + k] != self.value.get_char(k) {
                proof {
                    assert(s@.subrange(pos as int, pos + n)[k as int] != self.value@[k as int]);
                }
                return None;
            }
            k = k + 1;
        }
        proof {
            assert(s@.subrange(pos as int, pos + n) =~= self.value@);
        }
        Some(pos + n)
    }
}

} // verus!
