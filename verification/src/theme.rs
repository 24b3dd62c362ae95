//! The light/dark theme preference and its one-word saved form.

use vstd::prelude::*;

use crate::panel::skip_ws;
use crate::text::{chars_of, is_whitespace, is_ws, str_eq, string_of};

verus! {

#[derive(Clone, Copy, Debug, PartialEq, Eq, Structural)]
pub enum Mode {
    Dark,
    Light,
}

/// `s` without its trailing white space.
pub open spec fn rskip_ws(s: Seq<char>) -> Seq<char>
    decreases s.len(),
{
    if s.len() > 0 && is_ws(s.last()) {
        rskip_ws(s.drop_last())
    } else {
        s
    }
}

/// `s` without leading and trailing white space.
pub open spec fn trimmed(s: Seq<char>) -> Seq<char> {
    rskip_ws(skip_ws(s))
}

/// `s` without leading and trailing white space.
pub fn trim(s: &str) -> (r: String)
    ensures
        r@ == trimmed(s@),
{
    let cs = chars_of(s);
    let n = cs.len();
    let mut i: usize = 0;
    proof {
        assert(cs@.subrange(0, n as int) =~= cs@);
    }
    while i < n && is_whitespace(cs[i])
        invariant
            cs@ == s@,
            n == cs@.len(),
            i <= n,
            skip_ws(s@) == skip_ws(cs@.subrange(i as int, n as int)),
        decreases n - i,
    {
        proof {
            let t = cs@.subrange(i as int, n as int);
            assert(t.drop_first() =~= cs@.subrange(i + 1, n as int));
        }
        i = i + 1;
    }
    let mut j: usize = n;
    proof {
        let t = cs@.subrange(i as int, n as int);
        if t.len() > 0 {
            assert(t[0] == cs@[i as int]);
        }
        assert(skip_ws(t) == t);
        assert(cs@.subrange(i as int, j as int) == t);
    }
    while j > i && is_whitespace(cs[j - 1])
        invariant
            cs@ == s@,
            n == cs@.len(),
            i <= j <= n,
            trimmed(s@) == rskip_ws(cs@.subrange(i as int, j as int)),
        decreases j,
    {
        proof {
            let t = cs@.subrange(i as int, j as int);
            assert(t.drop_last() =~= cs@.subrange(i as int, j - 1));
            assert(t.last() == cs@[j - 1]);
        }
        j = j - 1;
    }
    proof {
        let t = cs@.subrange(i as int, j as int);
        if t.len() > 0 {
            assert(t.last() == cs@[j - 1]);
        }
        assert(rskip_ws(t) == t);
    }
    string_of(&cs, i, j)
}

impl Mode {
    pub open spec fn flipped(self) -> Mode {
        match self {
            Mode::Dark => Mode::Light,
            Mode::Light => Mode::Dark,
        }
    }

    /// The other mode.
    pub fn toggled(self) -> (r: Mode)
        ensures
            r == self.flipped(),
    {
        match self {
            Mode::Dark => Mode::Light,
            Mode::Light => Mode::Dark,
        }
    }

    /// The saved form of a mode.
    pub open spec fn word(self) -> Seq<char> {
        match self {
            Mode::Dark => "dark"@,
            Mode::Light => "light"@,
        }
    }

    pub fn as_str(self) -> (r: &'static str)
        ensures
            r@ == self.word(),
    {
        match self {
            Mode::Dark => "dark",
            Mode::Light => "light",
        }
    }

    /// The mode a saved text names, ignoring surrounding white space.
    pub open spec fn parsed(s: Seq<char>) -> Option<Mode> {
        let t = trimmed(s);
        if t == "dark"@ {
            Some(Mode::Dark)
        } else if t == "light"@ {
            Some(Mode::Light)
        } else {
            None
        }
    }

    pub fn from_str(s: &str) -> (r: Option<Mode>)
        ensures
            r == Mode::parsed(s@),
    {
        let t = trim(s);
        if str_eq(t.as_str(), "dark") {
            Some(Mode::Dark)
        } else if str_eq(t.as_str(), "light") {
            Some(Mode::Light)
        } else {
            None
        }
    }
}

/// The preference read back from the saved text (`None` when nothing could
/// be read): the mode it names, dark otherwise.
pub fn mode_from_saved(text: Option<&str>) -> (r: Mode)
    ensures
        r == match text {
            Some(t) => match Mode::parsed(t@) {
                Some(m) => m,
                None => Mode::Dark,
            },
            None => Mode::Dark,
        },
{
    match text {
        Some(t) => match Mode::from_str(t) {
            Some(m) => m,
            None => Mode::Dark,
        },
        None => Mode::Dark,
    }
}

/// Toggling twice gives the mode back.
pub proof fn lemma_toggle_involution(m: Mode)
    ensures
        m.flipped().flipped() == m,
{
}

/// What is saved reads back as the same mode, also with a trailing
/// newline or other surrounding white space.
pub proof fn lemma_saved_mode_reads_back(m: Mode, pre: Seq<char>, post: Seq<char>)
    requires
        forall|i: int| 0 <= i < pre.len() ==> is_ws(#[trigger] pre[i]),
        forall|i: int| 0 <= i < post.len() ==> is_ws(#[trigger] post[i]),
    ensures
        Mode::parsed(pre + m.word() + post) == Some(m),
{
    reveal_strlit("dark");
    reveal_strlit("light");
    let w = m.word();
    assert(!is_ws(w[0]));
    assert(!is_ws(w.last()));
    lemma_skip_ws_prefix(pre, w + post);
    assert(pre + w + post =~= pre + (w + post));
    lemma_rskip_ws_suffix(w, post);
}

proof fn lemma_skip_ws_prefix(pre: Seq<char>, rest: Seq<char>)
    requires
        forall|i: int| 0 <= i < pre.len() ==> is_ws(#[trigger] pre[i]),
        rest.len() > 0,
        !is_ws(rest[0]),
    ensures
        skip_ws(pre + rest) == rest,
    decreases pre.len(),
{
    if pre.len() == 0 {
        assert(pre + rest =~= rest);
    } else {
        assert((pre + rest).drop_first() =~= pre.drop_first() + rest);
        assert((pre + rest)[0] == pre[0]);
        lemma_skip_ws_prefix(pre.drop_first(), rest);
    }
}

proof fn lemma_rskip_ws_suffix(w: Seq<char>, post: Seq<char>)
    requires
        forall|i: int| 0 <= i < post.len() ==> is_ws(#[trigger] post[i]),
        w.len() > 0,
        !is_ws(w.last()),
    ensures
        rskip_ws(w + post) == w,
    decreases post.len(),
{
    if post.len() == 0 {
        assert(w + post =~= w);
    } else {
        assert((w + post).drop_last() =~= w + post.drop_last());
        assert((w + post).last() == post.last());
        lemma_rskip_ws_suffix(w, post.drop_last());
    }
}

} // verus!
