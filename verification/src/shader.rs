//! The user-submitted fragment shader that plays behind the overlay: its
//! source is the visualiser's own prelude followed by the submission.
use vstd::prelude::*;

verus! {

/// The fragment source compiled for submission `src`: the prelude `frag`,
/// a line break, the submission, and a final line break.
pub open spec fn fragment_source(frag: Seq<char>, src: Seq<char>) -> Seq<char> {
    frag + seq!['\n'] + src + seq!['\n']
}

fn compose(frag: &str, src: &str) -> (s: String)
    ensures
        s@ == fragment_source(frag@, src@),
{
    let mut s = String::new();
    s.append(frag);
    s.append("\n");
    s.append(src);
    s.append("\n");
    proof {
        reveal_strlit("\n");
    }
    assert(s@ =~= fragment_source(frag@, src@));
    s
}

/// The visualiser's bookkeeping: the tick at which its shader was last set
/// and who wrote it.
pub struct Visualizer {
    pub tickset: u64,
    pub author: String,
}

impl Visualizer {
    /// No shader set yet.
    pub fn new() -> (v: Self)
        ensures
            v.tickset == 0,
            v.author@ == Seq::<char>::empty(),
    {
        Visualizer { tickset: 0, author: String::new() }
    }

    /// Records that a shader is set at `tick` and returns the fragment
    /// source to compile for submission `src` after prelude `frag`.
    pub fn set(&mut self, tick: u64, frag: &str, src: &str) -> (fsrc: String)
        ensures
            final(self).tickset == tick,
            final(self).author == old(self).author,
            fsrc@ == fragment_source(frag@, src@),
    {
        self.tickset = tick;
        compose(frag, src)
    }

    /// Ticks since the shader was set, where `tick` is not earlier.
    pub fn elapsed(&self, tick: u64) -> (d: u64)
        requires
            tick >= self.tickset,
        ensures
            d == tick - self.tickset,
    {
        tick - self.tickset
    }
}

/// The shader page's bookkeeping: the tick at which its shader was last
/// set.
pub struct ThrowShade {
    pub tickset: u64,
}

impl ThrowShade {
    /// No shader set yet.
    pub fn new() -> (t: Self)
        ensures
            t.tickset == 0,
    {
        ThrowShade { tickset: 0 }
    }

    /// Records that a shader is set at `tick` and returns the fragment
    /// source to compile for submission `src` after prelude `frag`.
    pub fn set(&mut self, tick: u64, frag: &str, src: &str) -> (fsrc: String)
        ensures
            final(self).tickset == tick,
            fsrc@ == fragment_source(frag@, src@),
    {
        self.tickset = tick;
        compose(frag, src)
    }
}

} // verus!
