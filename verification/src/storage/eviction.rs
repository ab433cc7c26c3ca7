//! Eviction policies and victim selection.
//!
//! Selection is approximate: the engine samples a few keys and the least
//! desirable one of the sample goes.

use vstd::prelude::*;
use vstd::string::*;

use crate::text::same_text;

verus! {

/// How the engine decides which key to drop when it runs out of memory.
#[derive(Debug, Clone, Copy, PartialEq, Eq, Structural)]
pub enum EvictionPolicy {
    /// Refuse writes that would grow the dataset past `maxmemory`.
    NoEviction,
    /// Approximate LRU over every key.
    AllKeysLru,
    /// Approximate LRU over keys that have a TTL.
    VolatileLru,
    /// Approximate LFU over every key.
    AllKeysLfu,
    /// Approximate LFU over keys that have a TTL.
    VolatileLfu,
    /// A random key.
    AllKeysRandom,
    /// A random key that has a TTL.
    VolatileRandom,
    /// The key with the shortest remaining TTL.
    VolatileTtl,
    /// Adaptive hybrid of recency, frequency and TTL.
    AllKeysAhe,
    /// The adaptive hybrid over keys that have a TTL.
    VolatileAhe,
    /// The SIEVE queue over every key.
    AllKeysSieve,
    /// The SIEVE queue over keys that have a TTL.
    VolatileSieve,
    /// SIEVE that prefers keys close to expiry.
    AllKeysSieveS,
    /// SIEVE that prefers keys close to expiry, over keys that have a TTL.
    VolatileSieveS,
    /// The AdaptiveClimb list over every key.
    AllKeysAdaptiveClimb,
    /// The AdaptiveClimb list over keys that have a TTL.
    VolatileAdaptiveClimb,
}

/// Which keys a policy may evict.
#[derive(Debug, Clone, Copy, PartialEq, Eq, Structural)]
pub enum EvictionScope {
    /// Every key.
    AllKeys,
    /// Only keys with a TTL.
    Volatile,
}

impl EvictionPolicy {
    /// The name that the configuration uses.
    pub open spec fn wire_name(self) -> Seq<char> {
        match self {
            EvictionPolicy::NoEviction => "noeviction"@,
            EvictionPolicy::AllKeysLru => "allkeys-lru"@,
            EvictionPolicy::VolatileLru => "volatile-lru"@,
            EvictionPolicy::AllKeysLfu => "allkeys-lfu"@,
            EvictionPolicy::VolatileLfu => "volatile-lfu"@,
            EvictionPolicy::AllKeysRandom => "allkeys-random"@,
            EvictionPolicy::VolatileRandom => "volatile-random"@,
            EvictionPolicy::VolatileTtl => "volatile-ttl"@,
            EvictionPolicy::AllKeysAhe => "allkeys-ahe"@,
            EvictionPolicy::VolatileAhe => "volatile-ahe"@,
            EvictionPolicy::AllKeysSieve => "allkeys-sieve"@,
            EvictionPolicy::VolatileSieve => "volatile-sieve"@,
            EvictionPolicy::AllKeysSieveS => "allkeys-sieve-s"@,
            EvictionPolicy::VolatileSieveS => "volatile-sieve-s"@,
            EvictionPolicy::AllKeysAdaptiveClimb => "allkeys-adaptiveclimb"@,
            EvictionPolicy::VolatileAdaptiveClimb => "volatile-adaptiveclimb"@,
        }
    }

    /// Whether some policy carries this name.
    pub open spec fn is_name(name: Seq<char>) -> bool {
        exists|p: EvictionPolicy| #[trigger] p.wire_name() == name
    }

    /// The keys that the policy may evict.
    pub open spec fn scope_of(self) -> EvictionScope {
        match self {
            EvictionPolicy::NoEviction
            | EvictionPolicy::AllKeysLru
            | EvictionPolicy::AllKeysLfu
            | EvictionPolicy::AllKeysRandom
            | EvictionPolicy::AllKeysAhe
            | EvictionPolicy::AllKeysSieve
            | EvictionPolicy::AllKeysSieveS
            | EvictionPolicy::AllKeysAdaptiveClimb => EvictionScope::AllKeys,
            _ => EvictionScope::Volatile,
        }
    }

    pub open spec fn sieve(self) -> bool {
        self == EvictionPolicy::AllKeysSieve || self == EvictionPolicy::VolatileSieve || self
            == EvictionPolicy::AllKeysSieveS || self == EvictionPolicy::VolatileSieveS
    }

    pub open spec fn sieve_ttl_aware(self) -> bool {
        self == EvictionPolicy::AllKeysSieveS || self == EvictionPolicy::VolatileSieveS
    }

    pub open spec fn adaptive_climb(self) -> bool {
        self == EvictionPolicy::AllKeysAdaptiveClimb || self
            == EvictionPolicy::VolatileAdaptiveClimb
    }

    pub open spec fn adaptive_hybrid(self) -> bool {
        self == EvictionPolicy::AllKeysAhe || self == EvictionPolicy::VolatileAhe
    }

    /// Finds the policy with the given name.
    pub fn from_name(name: &str) -> (policy: Option<EvictionPolicy>)
        ensures
            policy matches Some(p) ==> p.wire_name() == name@,
            policy is None ==> !EvictionPolicy::is_name(name@),
    {
        let all: [EvictionPolicy; 16] = [
            EvictionPolicy::NoEviction,
            EvictionPolicy::AllKeysLru,
            EvictionPolicy::VolatileLru,
            EvictionPolicy::AllKeysLfu,
            EvictionPolicy::VolatileLfu,
            EvictionPolicy::AllKeysRandom,
            EvictionPolicy::VolatileRandom,
            EvictionPolicy::VolatileTtl,
            EvictionPolicy::AllKeysAhe,
            EvictionPolicy::VolatileAhe,
            EvictionPolicy::AllKeysSieve,
            EvictionPolicy::VolatileSieve,
            EvictionPolicy::AllKeysSieveS,
            EvictionPolicy::VolatileSieveS,
            EvictionPolicy::AllKeysAdaptiveClimb,
            EvictionPolicy::VolatileAdaptiveClimb,
        ];
        let ghost listed = all@;
        let mut i: usize = 0;
        while i < 16
            invariant
                i <= 16,
                all@ == listed,
                listed.len() == 16,
                forall|j: int| 0 <= j < i ==> (#[trigger] listed[j]).wire_name() != name@,
            decreases 16 - i,
        {
            let p: EvictionPolicy = all[i];
            if same_text(p.name(), name) {
                return Some(p);
            }
            i += 1;
        }
        proof {
            assert forall|p: EvictionPolicy| #[trigger] p.wire_name() != name@ by {
                let at: int = match p {
                    EvictionPolicy::NoEviction => 0,
                    EvictionPolicy::AllKeysLru => 1,
                    EvictionPolicy::VolatileLru => 2,
                    EvictionPolicy::AllKeysLfu => 3,
                    EvictionPolicy::VolatileLfu => 4,
                    EvictionPolicy::AllKeysRandom => 5,
                    EvictionPolicy::VolatileRandom => 6,
                    EvictionPolicy::VolatileTtl => 7,
                    EvictionPolicy::AllKeysAhe => 8,
                    EvictionPolicy::VolatileAhe => 9,
                    EvictionPolicy::AllKeysSieve => 10,
                    EvictionPolicy::VolatileSieve => 11,
                    EvictionPolicy::AllKeysSieveS => 12,
                    EvictionPolicy::VolatileSieveS => 13,
                    EvictionPolicy::AllKeysAdaptiveClimb => 14,
                    EvictionPolicy::VolatileAdaptiveClimb => 15,
                };
                assert(listed[at] == p);
            }
        }
        None
    }

    /// The policy's name.
    pub fn name(self) -> (name: &'static str)
        ensures
            name@ == self.wire_name(),
    {
        match self {
            EvictionPolicy::NoEviction => "noeviction",
            EvictionPolicy::AllKeysLru => "allkeys-lru",
            EvictionPolicy::VolatileLru => "volatile-lru",
            EvictionPolicy::AllKeysLfu => "allkeys-lfu",
            EvictionPolicy::VolatileLfu => "volatile-lfu",
            EvictionPolicy::AllKeysRandom => "allkeys-random",
            EvictionPolicy::VolatileRandom => "volatile-random",
            EvictionPolicy::VolatileTtl => "volatile-ttl",
            EvictionPolicy::AllKeysAhe => "allkeys-ahe",
            EvictionPolicy::VolatileAhe => "volatile-ahe",
            EvictionPolicy::AllKeysSieve => "allkeys-sieve",
            EvictionPolicy::VolatileSieve => "volatile-sieve",
            EvictionPolicy::AllKeysSieveS => "allkeys-sieve-s",
            EvictionPolicy::VolatileSieveS => "volatile-sieve-s",
            EvictionPolicy::AllKeysAdaptiveClimb => "allkeys-adaptiveclimb",
            EvictionPolicy::VolatileAdaptiveClimb => "volatile-adaptiveclimb",
        }
    }

    /// The keys that the policy may evict.
    pub fn scope(self) -> (scope: EvictionScope)
        ensures
            scope == self.scope_of(),
    {
        match self {
            EvictionPolicy::NoEviction
            | EvictionPolicy::AllKeysLru
            | EvictionPolicy::AllKeysLfu
            | EvictionPolicy::AllKeysRandom
            | EvictionPolicy::AllKeysAhe
            | EvictionPolicy::AllKeysSieve
            | EvictionPolicy::AllKeysSieveS
            | EvictionPolicy::AllKeysAdaptiveClimb => EvictionScope::AllKeys,
            _ => EvictionScope::Volatile,
        }
    }

    /// Whether the policy runs on the SIEVE queue.
    pub fn is_sieve(self) -> (yes: bool)
        ensures
            yes == self.sieve(),
    {
        match self {
            EvictionPolicy::AllKeysSieve
            | EvictionPolicy::VolatileSieve
            | EvictionPolicy::AllKeysSieveS
            | EvictionPolicy::VolatileSieveS => true,
            _ => false,
        }
    }

    /// Whether the policy runs on the AdaptiveClimb list.
    pub fn is_adaptive_climb(self) -> (yes: bool)
        ensures
            yes == self.adaptive_climb(),
    {
        match self {
            EvictionPolicy::AllKeysAdaptiveClimb | EvictionPolicy::VolatileAdaptiveClimb => true,
            _ => false,
        }
    }

    /// Whether the policy scores its candidates by the adaptive hybrid.
    pub fn is_adaptive_hybrid(self) -> (yes: bool)
        ensures
            yes == self.adaptive_hybrid(),
    {
        match self {
            EvictionPolicy::AllKeysAhe | EvictionPolicy::VolatileAhe => true,
            _ => false,
        }
    }
}

/// What tells a policy's name from the others: its length and a few letters.
spec fn marked(p: EvictionPolicy, name: Seq<char>) -> bool {
    match p {
        EvictionPolicy::NoEviction => name.len() == 10,
        EvictionPolicy::AllKeysLru => name.len() == 11 && name[9] == 'r',
        EvictionPolicy::VolatileLru => name.len() == 12 && name[9] == 'l' && name[10] == 'r',
        EvictionPolicy::AllKeysLfu => name.len() == 11 && name[9] == 'f',
        EvictionPolicy::VolatileLfu => name.len() == 12 && name[9] == 'l' && name[10] == 'f',
        EvictionPolicy::AllKeysRandom => name.len() == 14 && name[0] == 'a',
        EvictionPolicy::VolatileRandom => name.len() == 15 && name[0] == 'v',
        EvictionPolicy::VolatileTtl => name.len() == 12 && name[9] == 't' && name[10] == 't',
        EvictionPolicy::AllKeysAhe => name.len() == 11 && name[9] == 'h',
        EvictionPolicy::VolatileAhe => name.len() == 12 && name[9] == 'a' && name[10] == 'h',
        EvictionPolicy::AllKeysSieve => name.len() == 13,
        EvictionPolicy::VolatileSieve => name.len() == 14 && name[0] == 'v',
        EvictionPolicy::AllKeysSieveS => name.len() == 15 && name[0] == 'a',
        EvictionPolicy::VolatileSieveS => name.len() == 16,
        EvictionPolicy::AllKeysAdaptiveClimb => name.len() == 21,
        EvictionPolicy::VolatileAdaptiveClimb => name.len() == 22,
    }
}

proof fn lemma_marked(p: EvictionPolicy)
    ensures
        marked(p, p.wire_name()),
{
    match p {
        EvictionPolicy::NoEviction => {
            reveal_strlit("noeviction");
        },
        EvictionPolicy::AllKeysLru => {
            reveal_strlit("allkeys-lru");
        },
        EvictionPolicy::VolatileLru => {
            reveal_strlit("volatile-lru");
        },
        EvictionPolicy::AllKeysLfu => {
            reveal_strlit("allkeys-lfu");
        },
        EvictionPolicy::VolatileLfu => {
            reveal_strlit("volatile-lfu");
        },
        EvictionPolicy::AllKeysRandom => {
            reveal_strlit("allkeys-random");
        },
        EvictionPolicy::VolatileRandom => {
            reveal_strlit("volatile-random");
        },
        EvictionPolicy::VolatileTtl => {
            reveal_strlit("volatile-ttl");
        },
        EvictionPolicy::AllKeysAhe => {
            reveal_strlit("allkeys-ahe");
        },
        EvictionPolicy::VolatileAhe => {
            reveal_strlit("volatile-ahe");
        },
        EvictionPolicy::AllKeysSieve => {
            reveal_strlit("allkeys-sieve");
        },
        EvictionPolicy::VolatileSieve => {
            reveal_strlit("volatile-sieve");
        },
        EvictionPolicy::AllKeysSieveS => {
            reveal_strlit("allkeys-sieve-s");
        },
        EvictionPolicy::VolatileSieveS => {
            reveal_strlit("volatile-sieve-s");
        },
        EvictionPolicy::AllKeysAdaptiveClimb => {
            reveal_strlit("allkeys-adaptiveclimb");
        },
        EvictionPolicy::VolatileAdaptiveClimb => {
            reveal_strlit("volatile-adaptiveclimb");
        },
    }
}

/// Names and policies match one to one: looking up the name of a policy finds
/// that policy and no other.
pub proof fn law_policy_name_roundtrip(p: EvictionPolicy, found: EvictionPolicy)
    requires
        found.wire_name() == p.wire_name(),
    ensures
        found == p,
        EvictionPolicy::is_name(p.wire_name()),
{
    lemma_marked(found);
    lemma_marked(p);
}

/// The eviction configuration.
#[derive(Debug, Clone, Copy, PartialEq, Eq, Structural)]
pub struct EvictionConfig {
    /// Memory ceiling in bytes; zero means unlimited.
    pub max_memory: u64,
    /// What to do when the ceiling is reached.
    pub policy: EvictionPolicy,
    /// How many candidates are sampled per eviction.
    pub samples: usize,
}

impl Default for EvictionConfig {
    fn default() -> (cfg: EvictionConfig)
        ensures
            cfg.max_memory == 0,
            cfg.policy == EvictionPolicy::NoEviction,
            cfg.samples == 5,
    {
        EvictionConfig { max_memory: 0, policy: EvictionPolicy::NoEviction, samples: 5 }
    }
}

/// What the engine tells the selection about one sampled key.
#[derive(Debug, Clone)]
pub struct Candidate {
    /// The key.
    pub key: Vec<u8>,
    /// When the key was last accessed, in monotonic nanoseconds.
    pub last_access: Option<u128>,
    /// The expiry deadline, in monotonic nanoseconds.
    pub expire_at: Option<u128>,
    /// The access frequency counter; higher means hotter.
    pub lfu_counter: u8,
}

/// The mathematical content of a [`Candidate`].
#[verifier::ext_equal]
pub struct CandidateView {
    pub key: Seq<u8>,
    pub last_access: Option<u128>,
    pub expire_at: Option<u128>,
    pub lfu_counter: u8,
}

impl View for Candidate {
    type V = CandidateView;

    open spec fn view(&self) -> CandidateView {
        CandidateView {
            key: self.key@,
            last_access: self.last_access,
            expire_at: self.expire_at,
            lfu_counter: self.lfu_counter,
        }
    }
}

/// The contents of several candidates.
pub open spec fn candidate_views(candidates: Seq<Candidate>) -> Seq<CandidateView> {
    candidates.map_values(|c: Candidate| c@)
}

/// The moment of the last access; a key that was never accessed counts as
/// newer than any other.
pub open spec fn access_time(c: CandidateView) -> int {
    match c.last_access {
        Some(t) => t as int,
        None => u128::MAX + 1,
    }
}

/// Whether the policy considers `c` at all.
pub open spec fn considered(policy: EvictionPolicy, c: CandidateView) -> bool {
    policy == EvictionPolicy::VolatileTtl ==> c.expire_at is Some
}

/// Whether `a` is strictly more evictable than `b`.
pub open spec fn goes_before(policy: EvictionPolicy, a: CandidateView, b: CandidateView) -> bool {
    match policy {
        EvictionPolicy::AllKeysLru | EvictionPolicy::VolatileLru => access_time(a) < access_time(b),
        EvictionPolicy::AllKeysLfu
        | EvictionPolicy::VolatileLfu
        | EvictionPolicy::AllKeysAhe
        | EvictionPolicy::VolatileAhe => a.lfu_counter < b.lfu_counter || (a.lfu_counter
            == b.lfu_counter && access_time(a) < access_time(b)),
        EvictionPolicy::VolatileTtl => a.expire_at is Some && b.expire_at is Some
            && a.expire_at->0 < b.expire_at->0,
        _ => false,
    }
}

/// Whether the policy picks its victim from a sample.
pub open spec fn samples_candidates(policy: EvictionPolicy) -> bool {
    policy != EvictionPolicy::NoEviction && !policy.sieve() && !policy.adaptive_climb()
}

/// `i` is the policy's choice: considered, not beaten by any other candidate,
/// and the first of its equals.
pub open spec fn is_victim(
    policy: EvictionPolicy,
    candidates: Seq<CandidateView>,
    i: int,
) -> bool {
    &&& 0 <= i < candidates.len()
    &&& considered(policy, candidates[i])
    &&& forall|j: int|
        0 <= j < candidates.len() && considered(policy, #[trigger] candidates[j]) ==> !goes_before(
            policy,
            candidates[j],
            candidates[i],
        ) && (j < i ==> goes_before(policy, candidates[i], candidates[j]))
}

/// The policy's choice among the candidates.
pub open spec fn choice(policy: EvictionPolicy, candidates: Seq<CandidateView>) -> Option<
    CandidateView,
> {
    if samples_candidates(policy) && exists|i: int| is_victim(policy, candidates, i) {
        Some(candidates[choose|i: int| is_victim(policy, candidates, i)])
    } else {
        None
    }
}

proof fn lemma_one_victim(policy: EvictionPolicy, candidates: Seq<CandidateView>, i: int, j: int)
    requires
        is_victim(policy, candidates, i),
        is_victim(policy, candidates, j),
    ensures
        i == j,
{
    assert(considered(policy, candidates[i]));
    assert(considered(policy, candidates[j]));
}

fn accessed_earlier(a: &Option<u128>, b: &Option<u128>) -> (earlier: bool)
    ensures
        earlier == ((match a {
            Some(t) => *t as int,
            None => u128::MAX + 1,
        }) < (match b {
            Some(t) => *t as int,
            None => u128::MAX + 1,
        })),
{
    match (a, b) {
        (Some(x), Some(y)) => *x < *y,
        (Some(_), None) => true,
        (None, _) => false,
    }
}

fn more_evictable(policy: EvictionPolicy, a: &Candidate, b: &Candidate) -> (before: bool)
    ensures
        before == goes_before(policy, a@, b@),
{
    match policy {
        EvictionPolicy::AllKeysLru | EvictionPolicy::VolatileLru => accessed_earlier(
            &a.last_access,
            &b.last_access,
        ),
        EvictionPolicy::AllKeysLfu
        | EvictionPolicy::VolatileLfu
        | EvictionPolicy::AllKeysAhe
        | EvictionPolicy::VolatileAhe => a.lfu_counter < b.lfu_counter || (a.lfu_counter
            == b.lfu_counter && accessed_earlier(&a.last_access, &b.last_access)),
        EvictionPolicy::VolatileTtl => match (a.expire_at, b.expire_at) {
            (Some(x), Some(y)) => x < y,
            _ => false,
        },
        _ => false,
    }
}

/// Picks the worst candidate under `policy`.
///
/// `None` means that the policy has nothing to offer: the sample is empty, the
/// policy never evicts, it keeps a queue of its own instead of sampling, or no
/// candidate has the TTL that `volatile-ttl` asks for. For the adaptive hybrid
/// policies, whose score the caller computes, this falls back to pure LFU.
pub fn pick_victim(policy: EvictionPolicy, candidates: Vec<Candidate>) -> (victim: Option<
    Candidate,
>)
    ensures
        match victim {
            Some(c) => choice(policy, candidate_views(candidates@)) == Some(c@),
            None => choice(policy, candidate_views(candidates@)) is None,
        },
        victim is None ==> !samples_candidates(policy) || forall|i: int|
            0 <= i < candidates.len() ==> !considered(
                policy,
                #[trigger] candidate_views(candidates@)[i],
            ),
{
    if policy == EvictionPolicy::NoEviction || policy.is_sieve() || policy.is_adaptive_climb() {
        return None;
    }
    let ghost all = candidate_views(candidates@);
    let mut best: Option<usize> = None;
    let mut i: usize = 0;
    while i < candidates.len()
        invariant
            i <= candidates.len(),
            candidate_views(candidates@) == all,
            match best {
                Some(b) => b < i && is_victim(policy, all.take(i as int), b as int),
                None => forall|j: int| 0 <= j < i ==> !considered(policy, #[trigger] all[j]),
            },
        decreases candidates.len() - i,
    {
        let ghost shorter = all.take(i as int);
        let ghost longer = all.take(i as int + 1);
        assert(forall|j: int| 0 <= j < i ==> longer[j] == #[trigger] shorter[j]);
        assert(longer[i as int] == all[i as int]);
        if policy != EvictionPolicy::VolatileTtl || candidates[i].expire_at.is_some() {
            match best {
                None => {
                    assert(forall|j: int| 0 <= j < i ==> longer[j] == #[trigger] all[j]);
                    best = Some(i);
                },
                Some(b) => {
                    assert(longer[b as int] == shorter[b as int]);
                    if more_evictable(policy, &candidates[i], &candidates[b]) {
                        proof {
                            assert forall|j: int|
                                0 <= j < longer.len() && considered(
                                    policy,
                                    #[trigger] longer[j],
                                ) implies !goes_before(policy, longer[j], longer[i as int]) && (j
                                < i ==> goes_before(policy, longer[i as int], longer[j])) by {
                                if j < i {
                                    assert(longer[j] == shorter[j]);
                                    assert(!goes_before(policy, shorter[j], shorter[b as int]));
                                }
                            }
                        }
                        best = Some(i);
                    } else {
                        proof {
                            assert forall|j: int|
                                0 <= j < longer.len() && considered(
                                    policy,
                                    #[trigger] longer[j],
                                ) implies !goes_before(policy, longer[j], longer[b as int]) && (j
                                < b ==> goes_before(policy, longer[b as int], longer[j])) by {
                                if j < i {
                                    assert(longer[j] == shorter[j]);
                                }
                            }
                        }
                    }
                },
            }
        } else {
            proof {
                if let Some(b) = best {
                    assert forall|j: int|
                        0 <= j < longer.len() && considered(policy, #[trigger] longer[j]) implies
                        !goes_before(policy, longer[j], longer[b as int]) && (j < b ==> goes_before(
                        policy,
                        longer[b as int],
                        longer[j],
                    )) by {
                        assert(j < i);
                        assert(longer[j] == shorter[j]);
                    }
                    assert(longer[b as int] == shorter[b as int]);
                }
            }
        }
        i += 1;
    }
    assert(all.take(i as int) =~= all);
    match best {
        Some(b) => {
            let mut candidates = candidates;
            let victim: Candidate = candidates.swap_remove(b);
            proof {
                assert(is_victim(policy, all, b as int) && victim@ == all[b as int]);
                lemma_one_victim(
                    policy,
                    all,
                    b as int,
                    choose|i: int| is_victim(policy, all, i),
                );
            }
            Some(victim)
        },
        None => {
            assert forall|i: int| !is_victim(policy, all, i) by {
                if 0 <= i < all.len() {
                    assert(!considered(policy, all[i]));
                }
            }
            None
        },
    }
}

/// Under the LRU policies the victim is a candidate that has been idle longest: no
/// candidate was accessed before it.
pub proof fn law_lru_takes_longest_idle(
    policy: EvictionPolicy,
    sample: Seq<CandidateView>,
    c: CandidateView,
)
    requires
        policy == EvictionPolicy::AllKeysLru || policy == EvictionPolicy::VolatileLru,
        choice(policy, sample) == Some(c),
    ensures
        sample.contains(c),
        forall|j: int|
            0 <= j < sample.len() ==> match ((#[trigger] sample[j]).last_access, c.last_access) {
                (Some(other), Some(own)) => own <= other,
                (Some(_), None) => false,
                (None, _) => true,
            },
{
    let i = choose|i: int| is_victim(policy, sample, i);
    assert(sample[i] == c);
    assert forall|j: int| 0 <= j < sample.len() implies !goes_before(
        policy,
        #[trigger] sample[j],
        c,
    ) by {
        assert(considered(policy, sample[j]));
    }
}

/// Under the LFU policies the victim is a candidate that is used least: none has a
/// lower counter, and none with the same counter was accessed before it. The
/// adaptive hybrid policies fall back to the same choice.
pub proof fn law_lfu_takes_least_used(
    policy: EvictionPolicy,
    sample: Seq<CandidateView>,
    c: CandidateView,
)
    requires
        policy == EvictionPolicy::AllKeysLfu || policy == EvictionPolicy::VolatileLfu || policy
            == EvictionPolicy::AllKeysAhe || policy == EvictionPolicy::VolatileAhe,
        choice(policy, sample) == Some(c),
    ensures
        sample.contains(c),
        forall|j: int|
            0 <= j < sample.len() ==> c.lfu_counter <= (#[trigger] sample[j]).lfu_counter && (
            c.lfu_counter == sample[j].lfu_counter ==> match (
                sample[j].last_access,
                c.last_access,
            ) {
                (Some(other), Some(own)) => own <= other,
                (Some(_), None) => false,
                (None, _) => true,
            }),
{
    let i = choose|i: int| is_victim(policy, sample, i);
    assert(sample[i] == c);
    assert forall|j: int| 0 <= j < sample.len() implies !goes_before(
        policy,
        #[trigger] sample[j],
        c,
    ) by {
        assert(considered(policy, sample[j]));
    }
}

/// Under `volatile-ttl` the victim is a candidate that expires soonest: it has a
/// deadline, and no candidate has an earlier one.
pub proof fn law_ttl_takes_soonest(sample: Seq<CandidateView>, c: CandidateView)
    requires
        choice(EvictionPolicy::VolatileTtl, sample) == Some(c),
    ensures
        sample.contains(c),
        c.expire_at is Some,
        forall|j: int|
            0 <= j < sample.len() ==> match (#[trigger] sample[j]).expire_at {
                Some(other) => c.expire_at->0 <= other,
                None => true,
            },
{
    let policy = EvictionPolicy::VolatileTtl;
    let i = choose|i: int| is_victim(policy, sample, i);
    assert(sample[i] == c);
    assert forall|j: int|
        0 <= j < sample.len() && sample[j].expire_at is Some implies !goes_before(
        policy,
        #[trigger] sample[j],
        c,
    ) by {
        assert(considered(policy, sample[j]));
    }
}

/// Under the random policies the victim is one of the candidates, and there is one
/// whenever there are candidates. No policy that keeps a queue of its own, nor
/// `noeviction`, picks from a sample.
pub proof fn law_random_takes_any(sample: Seq<CandidateView>)
    ensures
        sample.len() > 0 ==> choice(EvictionPolicy::AllKeysRandom, sample) is Some && choice(
            EvictionPolicy::VolatileRandom,
            sample,
        ) is Some,
        choice(EvictionPolicy::AllKeysRandom, sample) matches Some(c) ==> sample.contains(c),
        choice(EvictionPolicy::VolatileRandom, sample) matches Some(c) ==> sample.contains(c),
        choice(EvictionPolicy::NoEviction, sample) is None,
        choice(EvictionPolicy::AllKeysSieve, sample) is None,
        choice(EvictionPolicy::VolatileSieve, sample) is None,
        choice(EvictionPolicy::AllKeysSieveS, sample) is None,
        choice(EvictionPolicy::VolatileSieveS, sample) is None,
        choice(EvictionPolicy::AllKeysAdaptiveClimb, sample) is None,
        choice(EvictionPolicy::VolatileAdaptiveClimb, sample) is None,
{
    if sample.len() > 0 {
        assert(is_victim(EvictionPolicy::AllKeysRandom, sample, 0));
        assert(is_victim(EvictionPolicy::VolatileRandom, sample, 0));
    }
}

/// A policy's name tells which keys it may evict: only a name that begins with
/// `volatile` spares the keys without a deadline.
pub proof fn law_name_tells_scope(p: EvictionPolicy)
    ensures
        p.scope_of() == EvictionScope::Volatile <==> p.wire_name().len() > 8
            && p.wire_name().take(8) == seq!['v', 'o', 'l', 'a', 't', 'i', 'l', 'e'],
{
    reveal_strlit("noeviction");
    reveal_strlit("allkeys-lru");
    reveal_strlit("volatile-lru");
    reveal_strlit("allkeys-lfu");
    reveal_strlit("volatile-lfu");
    reveal_strlit("allkeys-random");
    reveal_strlit("volatile-random");
    reveal_strlit("volatile-ttl");
    reveal_strlit("allkeys-ahe");
    reveal_strlit("volatile-ahe");
    reveal_strlit("allkeys-sieve");
    reveal_strlit("volatile-sieve");
    reveal_strlit("allkeys-sieve-s");
    reveal_strlit("volatile-sieve-s");
    reveal_strlit("allkeys-adaptiveclimb");
    reveal_strlit("volatile-adaptiveclimb");
    let head = seq!['v', 'o', 'l', 'a', 't', 'i', 'l', 'e'];
    let name = p.wire_name();
    if p.scope_of() == EvictionScope::Volatile {
        assert(name.take(8) =~= head);
    } else {
        assert(name.take(8)[0] != head[0]);
    }
}

/// The counter that a fresh key starts with.
pub const LFU_INIT_VAL: u8 = 5;

/// The counter after the decay that `elapsed` minutes bring.
pub open spec fn decayed(counter: u8, last_stamp: u16, now_stamp: u16, period: u16) -> u8 {
    if period == 0 {
        counter
    } else {
        let elapsed = (now_stamp - last_stamp) % 0x1_0000;
        let ticks = elapsed / (period as int);
        if ticks >= counter {
            0
        } else {
            (counter - ticks) as u8
        }
    }
}

/// Decays an access counter by one for each full period since `last_stamp`.
///
/// Stamps are minute buckets that wrap at 16 bits; a period of zero switches
/// decay off.
pub fn decayed_counter(
    counter: u8,
    last_stamp: u16,
    now_stamp: u16,
    decay_period_minutes: u16,
) -> (left: u8)
    ensures
        left == decayed(counter, last_stamp, now_stamp, decay_period_minutes),
{
    if decay_period_minutes == 0 {
        return counter;
    }
    let elapsed: u16 = if now_stamp >= last_stamp {
        now_stamp - last_stamp
    } else {
        (0x1_0000u32 - (last_stamp - now_stamp) as u32) as u16
    };
    assert(elapsed == (now_stamp - last_stamp) % 0x1_0000);
    let ticks: u16 = elapsed / decay_period_minutes;
    if ticks >= counter as u16 {
        0
    } else {
        counter - ticks as u8
    }
}

/// How many of the 2^24 equally likely draws advance a counter: those below
/// 2^24 / (10 * (counter - initial value) + 1).
pub open spec fn advances(counter: u8, draw: u32) -> bool {
    let excess: int = if counter >= LFU_INIT_VAL {
        counter - LFU_INIT_VAL
    } else {
        0
    };
    counter < u8::MAX && draw * (10 * excess + 1) < 0x100_0000
}

/// Advances a counter with a probability that shrinks as the counter grows.
///
/// `draw` is uniform below 2^24 and stands for the fraction `draw / 2^24`; the
/// counter advances when that fraction is below
/// `1 / (10 * (counter - LFU_INIT_VAL) + 1)`.
pub fn probabilistic_increment(counter: u8, draw: u32) -> (next: u8)
    ensures
        next == (if advances(counter, draw) {
            (counter + 1) as u8
        } else {
            counter
        }),
{
    if counter == u8::MAX {
        return counter;
    }
    let excess: u64 = if counter >= LFU_INIT_VAL {
        (counter - LFU_INIT_VAL) as u64
    } else {
        0
    };
    let weight: u64 = 10 * excess + 1;
    assert(draw * weight <= 0xffff_ffff * 2551) by (nonlinear_arith)
        requires
            0 <= draw <= 0xffff_ffff,
            0 <= weight <= 2551,
    ;
    if (draw as u64) * weight < 0x100_0000 {
        counter + 1
    } else {
        counter
    }
}

/// Idle time wears a counter down by one for each full period that has passed, and
/// never below zero. Minute stamps may have gone round their 16 bits in between.
pub proof fn law_counter_wears_down(counter: u8, stamp: u16, minutes: u16, period: u16)
    requires
        period > 0,
    ensures
        ({
            let later = ((stamp + minutes) % 65_536) as u16;
            let left = decayed(counter, stamp, later, period);
            &&& left <= counter
            &&& (counter - left) * period <= minutes
            &&& left > 0 ==> minutes < (counter - left + 1) * period
        }),
        decayed(counter, stamp, stamp, period) == counter,
{
    let later = ((stamp + minutes) % 65_536) as u16;
    let p = period as int;
    let ticks = minutes as int / p;
    assert((later - stamp) % 65_536 == minutes as int);
    assert(ticks * p <= minutes < (ticks + 1) * p) by (nonlinear_arith)
        requires
            p > 0,
            ticks == minutes as int / p,
    ;
    let gone = counter - decayed(counter, stamp, later, period);
    assert(0 <= gone <= ticks);
    assert(gone * p <= ticks * p) by (nonlinear_arith)
        requires
            0 <= gone <= ticks,
            p > 0,
    ;
    assert(0int / p == 0) by (nonlinear_arith)
        requires
            p > 0,
    ;
}

/// A counter that stands at its initial value or below advances on every access, a
/// full one never does. In between, each step up makes the next one rarer: it takes
/// a draw below one in `10 * (counter - 5) + 1`.
pub proof fn law_counter_grows_slowly(counter: u8, draw: u32)
    requires
        draw < 16_777_216,
    ensures
        counter <= 5 ==> advances(counter, draw),
        counter == 255 ==> !advances(counter, draw),
        5 <= counter < 255 ==> (advances(counter, draw) <==> draw * (10 * (counter - 5) + 1)
            < 16_777_216),
        counter < 255 && advances((counter + 1) as u8, draw) ==> advances(counter, draw),
{
    assert(draw * (10 * 0int + 1) == draw) by (nonlinear_arith);
    if 5 <= counter < 254 {
        assert(draw * (10 * (counter - 5) + 1) <= draw * (10 * (counter + 1 - 5) + 1))
            by (nonlinear_arith)
            requires
                draw >= 0,
        ;
    }
}

/// Whether a name ends with a dash and this word.
pub open spec fn tail_is(name: Seq<char>, word: Seq<char>) -> bool {
    let at = name.len() - word.len();
    at > 0 && name[at - 1] == '-' && name.skip(at) == word
}

/// The end of a policy's name tells what it goes by.
pub proof fn law_name_tells_kind(p: EvictionPolicy)
    ensures
        tail_is(p.wire_name(), seq!['l', 'r', 'u']) <==> p == EvictionPolicy::AllKeysLru || p == EvictionPolicy::VolatileLru,
        tail_is(p.wire_name(), seq!['l', 'f', 'u']) <==> p == EvictionPolicy::AllKeysLfu || p == EvictionPolicy::VolatileLfu,
        tail_is(p.wire_name(), seq!['r', 'a', 'n', 'd', 'o', 'm']) <==> p == EvictionPolicy::AllKeysRandom || p == EvictionPolicy::VolatileRandom,
        tail_is(p.wire_name(), seq!['t', 't', 'l']) <==> p == EvictionPolicy::VolatileTtl,
        tail_is(p.wire_name(), seq!['a', 'h', 'e']) <==> p.adaptive_hybrid(),
        tail_is(p.wire_name(), seq!['a', 'd', 'a', 'p', 't', 'i', 'v', 'e', 'c', 'l', 'i', 'm', 'b']) <==> p.adaptive_climb(),
        p.sieve() <==> tail_is(p.wire_name(), seq!['s', 'i', 'e', 'v', 'e']) || tail_is(
            p.wire_name(),
            seq!['s', 'i', 'e', 'v', 'e', '-', 's'],
        ),
        p.sieve_ttl_aware() <==> tail_is(p.wire_name(), seq!['s', 'i', 'e', 'v', 'e', '-', 's']),
        p == EvictionPolicy::NoEviction <==> !p.wire_name().contains('-'),
{
    let name = p.wire_name();
    reveal_strlit("noeviction");
    reveal_strlit("allkeys-lru");
    reveal_strlit("volatile-lru");
    reveal_strlit("allkeys-lfu");
    reveal_strlit("volatile-lfu");
    reveal_strlit("allkeys-random");
    reveal_strlit("volatile-random");
    reveal_strlit("volatile-ttl");
    reveal_strlit("allkeys-ahe");
    reveal_strlit("volatile-ahe");
    reveal_strlit("allkeys-sieve");
    reveal_strlit("volatile-sieve");
    reveal_strlit("allkeys-sieve-s");
    reveal_strlit("volatile-sieve-s");
    reveal_strlit("allkeys-adaptiveclimb");
    reveal_strlit("volatile-adaptiveclimb");
    lemma_tail(name, seq!['l', 'r', 'u']);
    lemma_tail(name, seq!['l', 'f', 'u']);
    lemma_tail(name, seq!['r', 'a', 'n', 'd', 'o', 'm']);
    lemma_tail(name, seq!['t', 't', 'l']);
    lemma_tail(name, seq!['a', 'h', 'e']);
    lemma_tail(name, seq!['a', 'd', 'a', 'p', 't', 'i', 'v', 'e', 'c', 'l', 'i', 'm', 'b']);
    lemma_tail(name, seq!['s', 'i', 'e', 'v', 'e']);
    lemma_tail(name, seq!['s', 'i', 'e', 'v', 'e', '-', 's']);
    match p {
        EvictionPolicy::NoEviction => {},
        EvictionPolicy::AllKeysLru => assert(name[7] == '-'),
        EvictionPolicy::VolatileLru => assert(name[8] == '-'),
        EvictionPolicy::AllKeysLfu => assert(name[7] == '-'),
        EvictionPolicy::VolatileLfu => assert(name[8] == '-'),
        EvictionPolicy::AllKeysRandom => assert(name[7] == '-'),
        EvictionPolicy::VolatileRandom => assert(name[8] == '-'),
        EvictionPolicy::VolatileTtl => assert(name[8] == '-'),
        EvictionPolicy::AllKeysAhe => assert(name[7] == '-'),
        EvictionPolicy::VolatileAhe => assert(name[8] == '-'),
        EvictionPolicy::AllKeysSieve => assert(name[7] == '-'),
        EvictionPolicy::VolatileSieve => assert(name[8] == '-'),
        EvictionPolicy::AllKeysSieveS => assert(name[7] == '-'),
        EvictionPolicy::VolatileSieveS => assert(name[8] == '-'),
        EvictionPolicy::AllKeysAdaptiveClimb => assert(name[7] == '-'),
        EvictionPolicy::VolatileAdaptiveClimb => assert(name[8] == '-'),
    }
}

proof fn lemma_tail(name: Seq<char>, word: Seq<char>)
    requires
        word.len() > 0,
    ensures
        tail_is(name, word) <==> name.len() > word.len() && name[name.len() - word.len() - 1] == '-'
            && forall|i: int|
            0 <= i < word.len() ==> #[trigger] word[i] == name[name.len() - word.len() + i],
{
    let at = name.len() - word.len();
    if name.len() > word.len() {
        let tail = name.skip(at);
        if forall|i: int| 0 <= i < word.len() ==> #[trigger] word[i] == name[at + i] {
            assert(tail =~= word);
        }
        if tail == word {
            assert forall|i: int| 0 <= i < word.len() implies #[trigger] word[i] == name[at + i] by {
                assert(tail[i] == name[at + i]);
            }
        }
    }
}

/// Of candidates that are alike in access, use and deadline the first goes.
pub proof fn law_first_of_equals_goes(
    policy: EvictionPolicy,
    sample: Seq<CandidateView>,
    c: CandidateView,
)
    requires
        choice(policy, sample) == Some(c),
    ensures
        exists|i: int|
            0 <= i < sample.len() && #[trigger] sample[i] == c && forall|j: int|
                0 <= j < i ==> !((#[trigger] sample[j]).last_access == c.last_access
                    && sample[j].lfu_counter == c.lfu_counter && sample[j].expire_at
                    == c.expire_at),
{
    let i = choose|i: int| is_victim(policy, sample, i);
    assert(sample[i] == c);
    assert forall|j: int| 0 <= j < i implies !((#[trigger] sample[j]).last_access == c.last_access
        && sample[j].lfu_counter == c.lfu_counter && sample[j].expire_at == c.expire_at) by {
        if sample[j].expire_at == c.expire_at {
            assert(considered(policy, sample[j]));
        }
    }
}

} // verus!
