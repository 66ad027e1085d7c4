use vstd::prelude::*;

verus! {

/// Whether `s` holds `p` starting at position `i`.
pub open spec fn has_at<T>(s: Seq<T>, i: int, p: Seq<T>) -> bool {
    &&& 0 <= i
    &&& i + p.len() <= s.len()
    &&& forall|k: int| 0 <= k < p.len() ==> s[i + k] == p[k]
}

/// A cursor over a buffer of values, with lookahead and one-step lookbehind.
#[derive(Clone, Debug)]
pub struct Iter<T: Copy> {
    pub vec: Vec<T>,
    pub pos: usize,
}

impl<T: Copy> Iter<T> {
    /// Whether the position lies within the buffer (or just past its end).
    pub open spec fn wf(&self) -> bool {
        self.pos <= self.vec.len()
    }

    /// A cursor at the start of `vec`.
    pub fn from(vec: Vec<T>) -> (r: Self)
        ensures
            r.vec@ == vec@,
            r.pos == 0,
    {
        Iter { vec, pos: 0 }
    }

    /// Returns the element at the position and moves past it; `None` at the end.
    pub fn next(&mut self) -> (r: Option<T>)
        ensures
            final(self).vec@ == old(self).vec@,
            old(self).pos < old(self).vec.len() ==> r == Some(old(self).vec@[old(self).pos as int])
                && final(self).pos == old(self).pos + 1,
            old(self).pos >= old(self).vec.len() ==> r.is_none() && final(self).pos == old(self).pos,
    {
        if self.pos >= self.vec.len() {
            None
        } else {
            self.pos = self.pos + 1;
            Some(self.vec[self.pos - 1])
        }
    }

    /// Returns the element `indent` places past the position (zero when `None`), without moving.
    pub fn peek(&self, indent: Option<usize>) -> (r: Option<T>)
        ensures
            ({
                let k = self.pos + match indent { Some(d) => d as int, None => 0 };
                &&& k < self.vec.len() ==> r == Some(self.vec@[k])
                &&& k >= self.vec.len() ==> r.is_none()
            }),
    {
        let d: usize = match indent {
            Some(d) => d,
            None => 0,
        };
        if self.pos >= self.vec.len() || d >= self.vec.len() - self.pos {
            None
        } else {
            Some(self.vec[self.pos + d])
        }
    }

    /// Moves one place back and returns the element there; `None` at the start.
    pub fn step_back(&mut self) -> (r: Option<T>)
        requires
            old(self).wf(),
        ensures
            final(self).vec@ == old(self).vec@,
            old(self).pos == 0 ==> r.is_none() && final(self).pos == 0,
            old(self).pos > 0 ==> final(self).pos == old(self).pos - 1 && r == Some(
                old(self).vec@[old(self).pos - 1],
            ),
    {
        if self.pos == 0 {
            return None;
        }
        self.pos = self.pos - 1;
        Some(self.vec[self.pos])
    }
}

impl Iter<char> {
    /// Whether the remaining characters begin with `pattern`.
    pub fn starts_with(&self, pattern: &[char]) -> (r: bool)
        requires
            self.wf(),
        ensures
            r == has_at(self.vec@, self.pos as int, pattern@),
    {
        if pattern.len() > self.vec.len() - self.pos {
            return false;
        }
        let mut k: usize = 0;
        while k < pattern.len()
            invariant
                self.pos + pattern.len() <= self.vec.len(),
                pattern.len() == pattern@.len(),
                k <= pattern@.len(),
                forall|j: int| 0 <= j < k ==> self.vec@[self.pos + j] == pattern@[j],
            decreases pattern@.len() - k,
        {
            if self.vec[self.pos + k] != pattern[k] {
                return false;
            }
            k = k + 1;
        }
        true
    }
}

} // verus!
