//! Agent states, their animations, and the channels a colour is drawn on.

use vstd::prelude::*;

use crate::text::{
    all_ascii, ascii_lower, eq_lit, is_ascii_upper, is_ws, lemma_ascii_lower_fixed, lemma_split_ascii,
    lemma_trim_ascii, lowercase, split_chars, split_on, to_lowercase_chars, trim, trim_chars, trim_end,
    trim_start, Sep,
};

verus! {

/// The state an agent (or command) reports for a pane.
#[derive(Clone, Copy, PartialEq, Eq, Structural, Debug)]
pub enum AgentState {
    Idle,
    Working,
    Waiting,
    Done,
    Error,
}

impl Default for AgentState {
    fn default() -> (r: Self)
        ensures
            r == AgentState::Idle,
    {
        AgentState::Idle
    }
}

/// The state a lowercased keyword names; anything else is `Idle`.
pub open spec fn state_of_keyword(n: Seq<char>) -> AgentState {
    if n == "working"@ {
        AgentState::Working
    } else if n == "waiting"@ {
        AgentState::Waiting
    } else if n == "done"@ {
        AgentState::Done
    } else if n == "error"@ {
        AgentState::Error
    } else {
        AgentState::Idle
    }
}

/// The keyword of a state.
pub open spec fn state_key(s: AgentState) -> Seq<char> {
    match s {
        AgentState::Working => "working"@,
        AgentState::Waiting => "waiting"@,
        AgentState::Done => "done"@,
        AgentState::Error => "error"@,
        AgentState::Idle => "idle"@,
    }
}

/// The state an exact keyword names, `idle` included.
pub open spec fn exact_keyword(n: Seq<char>) -> Option<AgentState> {
    if n == "idle"@ {
        Some(AgentState::Idle)
    } else if n == "working"@ || n == "waiting"@ || n == "done"@ || n == "error"@ {
        Some(state_of_keyword(n))
    } else {
        None
    }
}

impl AgentState {
    /// `AgentState::parse`: the keyword, trimmed and in any case; a keyword already in
    /// lower case is read as it stands.
    pub open spec fn parsed(s: Seq<char>) -> AgentState {
        match exact_keyword(trim(s)) {
            Some(st) => st,
            None => state_of_keyword(lowercase(trim(s))),
        }
    }

    /// The state named by an already lowercased keyword.
    pub fn from_keyword(n: &[char]) -> (r: AgentState)
        ensures
            r == state_of_keyword(n@),
    {
        if eq_lit(n, "working") {
            AgentState::Working
        } else if eq_lit(n, "waiting") {
            AgentState::Waiting
        } else if eq_lit(n, "done") {
            AgentState::Done
        } else if eq_lit(n, "error") {
            AgentState::Error
        } else {
            AgentState::Idle
        }
    }

    pub fn parse(s: &[char]) -> (r: AgentState)
        ensures
            r == AgentState::parsed(s@),
            all_ascii(s@) ==> r == state_of_keyword(ascii_lower(trim(s@))),
    {
        let t = trim_chars(s);
        proof {
            if all_ascii(s@) {
                lemma_trim_ascii(s@);
            }
        }
        if eq_lit(t.as_slice(), "idle") {
            proof {
                lemma_keywords_lower();
                lemma_keywords_differ();
            }
            return AgentState::Idle;
        }
        let exact = AgentState::from_keyword(t.as_slice());
        if exact != AgentState::Idle {
            proof {
                lemma_keywords_lower();
                lemma_keywords_differ();
            }
            return exact;
        }
        proof {
            lemma_keywords_differ();
        }
        let lower = to_lowercase_chars(t.as_slice());
        AgentState::from_keyword(lower.as_slice())
    }

    pub fn key(self) -> (r: &'static str)
        ensures
            r@ == state_key(self),
    {
        match self {
            AgentState::Working => "working",
            AgentState::Waiting => "waiting",
            AgentState::Done => "done",
            AgentState::Error => "error",
            AgentState::Idle => "idle",
        }
    }
}

/// The state keywords hold no capital letter, so ASCII lowercasing keeps them.
proof fn lemma_keywords_lower()
    ensures
        ascii_lower("idle"@) == "idle"@,
        ascii_lower("working"@) == "working"@,
        ascii_lower("waiting"@) == "waiting"@,
        ascii_lower("done"@) == "done"@,
        ascii_lower("error"@) == "error"@,
{
    reveal_strlit("working");
    reveal_strlit("waiting");
    reveal_strlit("done");
    reveal_strlit("error");
    reveal_strlit("idle");
    lemma_no_upper("idle"@);
    lemma_no_upper("working"@);
    lemma_no_upper("waiting"@);
    lemma_no_upper("done"@);
    lemma_no_upper("error"@);
}

/// A text of small letters is its own ASCII lowercase.
proof fn lemma_no_upper(s: Seq<char>)
    requires
        forall|k: int| 0 <= k < s.len() ==> 'a' <= #[trigger] s[k] <= 'z',
    ensures
        ascii_lower(s) == s,
{
    assert forall|k: int| 0 <= k < s.len() implies !is_ascii_upper(#[trigger] s[k]) by {}
    lemma_ascii_lower_fixed(s);
}

proof fn lemma_keywords_differ()
    ensures
        "idle"@ != "working"@,
        "idle"@ != "waiting"@,
        "idle"@ != "done"@,
        "idle"@ != "error"@,
        "working"@ != "waiting"@,
        "working"@ != "done"@,
        "working"@ != "error"@,
        "waiting"@ != "done"@,
        "waiting"@ != "error"@,
        "done"@ != "error"@,
{
    reveal_strlit("working");
    reveal_strlit("waiting");
    reveal_strlit("done");
    reveal_strlit("error");
    reveal_strlit("idle");
    assert("working"@ != "waiting"@ && "working"@ != "done"@ && "working"@ != "error"@) by {
        assert("working"@[2] != "waiting"@[2]);
        assert("working"@.len() != "done"@.len());
        assert("working"@.len() != "error"@.len());
    }
    assert("waiting"@ != "done"@ && "waiting"@ != "error"@) by {
        assert("waiting"@.len() != "done"@.len());
        assert("waiting"@.len() != "error"@.len());
    }
    assert("done"@ != "error"@) by {
        assert("done"@.len() != "error"@.len());
    }
    assert("idle"@ != "working"@ && "idle"@ != "waiting"@ && "idle"@ != "error"@) by {
        assert("idle"@.len() != "working"@.len());
        assert("idle"@.len() != "waiting"@.len());
        assert("idle"@.len() != "error"@.len());
    }
    assert("idle"@ != "done"@) by {
        assert("idle"@[0] != "done"@[0]);
    }
}

/// Reading back the keyword of a state gives the state again: `parse` of what `key`
/// gives is the state itself.
pub proof fn lemma_key_parses(s: AgentState)
    ensures
        state_of_keyword(state_key(s)) == s,
        AgentState::parsed(state_key(s)) == s,
{
    lemma_keywords_differ();
    reveal_strlit("working");
    reveal_strlit("waiting");
    reveal_strlit("done");
    reveal_strlit("error");
    reveal_strlit("idle");
    let k = state_key(s);
    assert(!is_ws(k[0]));
    assert(!is_ws(k.last()));
    assert(trim_start(k) == k);
    assert(trim_end(k) == k);
    assert(trim(k) == k);
}

/// How a state is animated.
#[derive(Clone, Copy, PartialEq, Eq, Structural, Debug)]
pub enum Anim {
    Off,
    Solid,
    Flash,
    Scroll,
}

/// The animation a lowercased keyword names; anything else is `None`.
pub open spec fn anim_of_keyword(n: Seq<char>) -> Anim {
    if n == "flash"@ {
        Anim::Flash
    } else if n == "scroll"@ {
        Anim::Scroll
    } else if n == "solid"@ {
        Anim::Solid
    } else {
        Anim::Off
    }
}

impl Anim {
    pub open spec fn parsed(s: Seq<char>) -> Anim {
        anim_of_keyword(lowercase(trim(s)))
    }

    pub open spec fn animated(self) -> bool {
        self == Anim::Flash || self == Anim::Scroll
    }

    /// The animation named by an already lowercased keyword.
    pub fn from_keyword(n: &[char]) -> (r: Anim)
        ensures
            r == anim_of_keyword(n@),
    {
        if eq_lit(n, "flash") {
            Anim::Flash
        } else if eq_lit(n, "scroll") {
            Anim::Scroll
        } else if eq_lit(n, "solid") {
            Anim::Solid
        } else {
            Anim::Off
        }
    }

    pub fn parse(s: &[char]) -> (r: Anim)
        ensures
            r == Anim::parsed(s@),
            all_ascii(s@) ==> r == anim_of_keyword(ascii_lower(trim(s@))),
    {
        let t = trim_chars(s);
        proof {
            if all_ascii(s@) {
                lemma_trim_ascii(s@);
            }
        }
        let lower = to_lowercase_chars(t.as_slice());
        Anim::from_keyword(lower.as_slice())
    }

    pub fn is_animated(self) -> (r: bool)
        ensures
            r == self.animated(),
    {
        matches!(self, Anim::Flash | Anim::Scroll)
    }
}

/// The visual channels a colour is drawn on.
#[derive(Clone, Copy, PartialEq, Eq, Structural, Debug)]
pub struct Channels {
    pub fill: bool,
    pub border: bool,
    pub glyph: bool,
}

impl Default for Channels {
    fn default() -> (r: Self)
        ensures
            r == (Channels { fill: false, border: false, glyph: false }),
    {
        Channels { fill: false, border: false, glyph: false }
    }
}

/// The channels after reading one lowercased token: `fill`, `border`, `glyph` or `dot`,
/// `both` (fill and border), `all`; other tokens change nothing.
pub open spec fn add_channel(c: Channels, n: Seq<char>) -> Channels {
    if n == "fill"@ {
        Channels { fill: true, ..c }
    } else if n == "border"@ {
        Channels { border: true, ..c }
    } else if n == "glyph"@ || n == "dot"@ {
        Channels { glyph: true, ..c }
    } else if n == "both"@ {
        Channels { fill: true, border: true, ..c }
    } else if n == "all"@ {
        Channels { fill: true, border: true, glyph: true }
    } else {
        c
    }
}

/// The channels named by the tokens `toks`, read in order from none.
pub open spec fn channels_of_tokens(toks: Seq<Seq<char>>) -> Channels
    decreases toks.len(),
{
    if toks.len() == 0 {
        Channels { fill: false, border: false, glyph: false }
    } else {
        add_channel(channels_of_tokens(toks.drop_last()), lowercase(trim(toks.last())))
    }
}

/// `channels_of_tokens` for ASCII tokens, lowercased by ASCII case mapping.
pub open spec fn ascii_channels_of_tokens(toks: Seq<Seq<char>>) -> Channels
    decreases toks.len(),
{
    if toks.len() == 0 {
        Channels { fill: false, border: false, glyph: false }
    } else {
        add_channel(ascii_channels_of_tokens(toks.drop_last()), ascii_lower(trim(toks.last())))
    }
}

impl Channels {
    /// `Channels::parse`: tokens separated by whitespace, `,` or `+`.
    pub open spec fn parsed(s: Seq<char>) -> Channels {
        channels_of_tokens(split_on(s, Sep::ChannelToken))
    }

    /// Adds the channels an already lowercased token names (see [`add_channel`]).
    pub fn add_token(&mut self, n: &[char])
        ensures
            *final(self) == add_channel(*old(self), n@),
    {
        if eq_lit(n, "fill") {
            self.fill = true;
        } else if eq_lit(n, "border") {
            self.border = true;
        } else if eq_lit(n, "glyph") || eq_lit(n, "dot") {
            self.glyph = true;
        } else if eq_lit(n, "both") {
            self.fill = true;
            self.border = true;
        } else if eq_lit(n, "all") {
            self.fill = true;
            self.border = true;
            self.glyph = true;
        }
    }

    pub fn parse(s: &[char]) -> (r: Channels)
        ensures
            r == Channels::parsed(s@),
            all_ascii(s@) ==> r == ascii_channels_of_tokens(split_on(s@, Sep::ChannelToken)),
    {
        let toks = split_chars(s, Sep::ChannelToken);
        let ghost tv = toks.deep_view();
        proof {
            if all_ascii(s@) {
                lemma_split_ascii(s@, Sep::ChannelToken);
            }
        }
        let mut c = Channels { fill: false, border: false, glyph: false };
        let mut i: usize = 0;
        assert(tv.take(0) =~= Seq::<Seq<char>>::empty());
        while i < toks.len()
            invariant
                i <= toks@.len(),
                tv == toks.deep_view(),
                c == channels_of_tokens(tv.take(i as int)),
                tv == split_on(s@, Sep::ChannelToken),
                all_ascii(s@) ==> forall|k: int| 0 <= k < tv.len() ==> all_ascii(#[trigger] tv[k]),
                all_ascii(s@) ==> c == ascii_channels_of_tokens(tv.take(i as int)),
            decreases toks.len() - i,
        {
            assert(toks[i as int]@ == tv[i as int]);
            let t = trim_chars(toks[i].as_slice());
            proof {
                if all_ascii(s@) {
                    assert(all_ascii(tv[i as int]));
                    lemma_trim_ascii(tv[i as int]);
                }
            }
            let lower = to_lowercase_chars(t.as_slice());
            c.add_token(lower.as_slice());
            assert(tv.take(i + 1).drop_last() =~= tv.take(i as int));
            i = i + 1;
        }
        assert(tv.take(i as int) =~= tv);
        c
    }
}

} // verus!
