use vstd::prelude::*;

verus! {

/// Software flavor of a peer, derived from its advertised user agent.
///
/// `Unknown` is used before a handshake completes and for addresses learned
/// through gossip whose agent has not been observed yet.
#[derive(Debug, Clone, Copy, PartialEq, Eq, Structural, Hash)]
pub enum NodeType {
    Unknown,
    Knots,
    Core,
    LibreRelay,
    Other,
}

/// ASCII lowercasing of one byte: 'A'..='Z' map to 'a'..='z', all else unchanged.
pub open spec fn ascii_lower_byte(b: u8) -> u8 {
    if 65 <= b && b <= 90 {
        (b + 32) as u8
    } else {
        b
    }
}

/// ASCII lowercasing of a byte string.
pub open spec fn lower_seq(s: Seq<u8>) -> Seq<u8> {
    s.map_values(|b: u8| ascii_lower_byte(b))
}

/// The needle `t` occurs in `s` starting at position `i`.
pub open spec fn occurs_at(s: Seq<u8>, t: Seq<u8>, i: int) -> bool {
    0 <= i && i + t.len() <= s.len() && s.subrange(i, i + t.len() as int) == t
}

/// The needle `t` occurs somewhere in `s`.
pub open spec fn contains_seq(s: Seq<u8>, t: Seq<u8>) -> bool {
    exists|i: int| occurs_at(s, t, i)
}

pub open spec fn knots_needle() -> Seq<u8> {
    seq![107u8, 110u8, 111u8, 116u8, 115u8]
}

pub open spec fn libre_needle() -> Seq<u8> {
    seq![108u8, 105u8, 98u8, 114u8, 101u8]
}

pub open spec fn satoshi_needle() -> Seq<u8> {
    seq![115u8, 97u8, 116u8, 111u8, 115u8, 104u8, 105u8]
}

pub open spec fn core_needle() -> Seq<u8> {
    seq![99u8, 111u8, 114u8, 101u8]
}

/// Classification of a user-agent byte string: the agent is lowercased, then
/// searched for the flavor substrings, in this order of precedence.
pub open spec fn classify_spec(agent: Seq<u8>) -> NodeType {
    let l = lower_seq(agent);
    if contains_seq(l, knots_needle()) {
        NodeType::Knots
    } else if contains_seq(l, libre_needle()) {
        NodeType::LibreRelay
    } else if contains_seq(l, satoshi_needle()) || contains_seq(l, core_needle()) {
        NodeType::Core
    } else {
        NodeType::Other
    }
}

impl NodeType {
    /// Classifies a user agent, case-insensitively: agents containing `knots`
    /// are Knots, `libre` LibreRelay, `satoshi` or `core` Core, anything else
    /// Other.
    pub fn from_user_agent(agent: &[u8]) -> (r: NodeType)
        ensures
            r == classify_spec(agent@),
    {
        let lowered = lower_bytes(agent);
        let knots: [u8; 5] = [107, 110, 111, 116, 115];
        let libre: [u8; 5] = [108, 105, 98, 114, 101];
        let satoshi: [u8; 7] = [115, 97, 116, 111, 115, 104, 105];
        let core: [u8; 4] = [99, 111, 114, 101];
        proof {
            assert(knots@ =~= knots_needle());
            assert(libre@ =~= libre_needle());
            assert(satoshi@ =~= satoshi_needle());
            assert(core@ =~= core_needle());
        }
        if contains_needle(lowered.as_slice(), knots.as_slice()) {
            NodeType::Knots
        } else if contains_needle(lowered.as_slice(), libre.as_slice()) {
            NodeType::LibreRelay
        } else if contains_needle(lowered.as_slice(), satoshi.as_slice()) || contains_needle(
            lowered.as_slice(),
            core.as_slice(),
        ) {
            NodeType::Core
        } else {
            NodeType::Other
        }
    }

    /// Stable lower-case label of the flavor, as stored and exported.
    pub fn as_str(&self) -> (r: &'static str)
        ensures
            r@ == self.label_spec(),
    {
        proof {
            reveal_strlit("unknown");
            reveal_strlit("knots");
            reveal_strlit("core");
            reveal_strlit("libre");
            reveal_strlit("other");
        }
        match self {
            NodeType::Unknown => "unknown",
            NodeType::Knots => "knots",
            NodeType::Core => "core",
            NodeType::LibreRelay => "libre",
            NodeType::Other => "other",
        }
    }

    /// The label that `as_str` returns.
    pub open spec fn label_spec(self) -> Seq<char> {
        match self {
            NodeType::Unknown => seq!['u', 'n', 'k', 'n', 'o', 'w', 'n'],
            NodeType::Knots => seq!['k', 'n', 'o', 't', 's'],
            NodeType::Core => seq!['c', 'o', 'r', 'e'],
            NodeType::LibreRelay => seq!['l', 'i', 'b', 'r', 'e'],
            NodeType::Other => seq!['o', 't', 'h', 'e', 'r'],
        }
    }
}

/// ASCII-lowercases every byte of `s`.
pub fn lower_bytes(s: &[u8]) -> (r: Vec<u8>)
    ensures
        r@ == lower_seq(s@),
{
    let mut out: Vec<u8> = Vec::new();
    let mut i: usize = 0;
    while i < s.len()
        invariant
            i <= s@.len(),
            out@ =~= lower_seq(s@.subrange(0, i as int)),
        decreases s@.len() - i,
    {
        let b = s[i];
        let low = if 65 <= b && b <= 90 {
            b + 32
        } else {
            b
        };
        out.push(low);
        i += 1;
        proof {
            assert(s@.subrange(0, i as int) =~= s@.subrange(0, i - 1).push(s@[i - 1]));
            assert(out@ =~= lower_seq(s@.subrange(0, i as int)));
        }
    }
    proof {
        assert(s@.subrange(0, s@.len() as int) =~= s@);
    }
    out
}

/// Whether `t` starts at position `i` of `s`.
fn matches_at(s: &[u8], t: &[u8], i: usize) -> (r: bool)
    requires
        i + t@.len() <= s@.len(),
    ensures
        r == occurs_at(s@, t@, i as int),
{
    let n = s.len();
    let mut j: usize = 0;
    while j < t.len()
        invariant
            n == s@.len(),
            i + t@.len() <= s@.len(),
            j <= t@.len(),
            forall|k: int| 0 <= k < j ==> s@[i + k] == t@[k],
        decreases t@.len() - j,
    {
        if s[i + j] != t[j] {
            proof {
                assert(s@.subrange(i as int, i + t@.len() as int)[j as int] != t@[j as int]);
            }
            return false;
        }
        j += 1;
    }
    proof {
        assert(s@.subrange(i as int, i + t@.len() as int) =~= t@);
    }
    true
}

/// Substring search: does `t` occur anywhere in `s`?
pub fn contains_needle(s: &[u8], t: &[u8]) -> (r: bool)
    ensures
        r == contains_seq(s@, t@),
{
    if t.len() > s.len() {
        proof {
            assert(forall|i: int| !occurs_at(s@, t@, i));
        }
        return false;
    }
    if t.len() == 0 {
        proof {
            assert(s@.subrange(0, 0) =~= t@);
            assert(occurs_at(s@, t@, 0));
        }
        return true;
    }
    let mut i: usize = 0;
    let last = s.len() - t.len();
    while i <= last
        invariant
            s@.len() <= usize::MAX,
            1 <= t@.len() <= s@.len(),
            last == s@.len() - t@.len(),
            i <= last + 1,
            forall|k: int| 0 <= k < i ==> !occurs_at(s@, t@, k),
        decreases last + 1 - i,
    {
        if matches_at(s, t, i) {
            return true;
        }
        i += 1;
    }
    proof {
        assert(forall|k: int| !occurs_at(s@, t@, k));
    }
    false
}

/// Classification is insensitive to ASCII case: lowercasing the agent first
/// does not change the result.
pub proof fn lemma_classify_case_insensitive(agent: Seq<u8>)
    ensures
        classify_spec(lower_seq(agent)) == classify_spec(agent),
{
    assert(lower_seq(lower_seq(agent)) =~= lower_seq(agent));
}

} // verus!
