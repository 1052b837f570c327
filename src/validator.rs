use vstd::prelude::*;

use crate::keyed::KeyedMap;
use crate::refresh::EdgeCaches;
use crate::registry::{fresh_target, register_targets, TokenRefresh};
use crate::token::{EdgeToken, ProjectScope, TokenValidationStatus};

verus! {

/// Why a token could not be validated.
#[derive(Clone, Copy, Debug, PartialEq, Eq, Structural)]
pub enum ValidationError {
    /// Network failure, 5xx or timeout: the caller may retry.
    Transient,
    /// Upstream rejected the edge's own credential.
    Misconfigured,
}

/// What a caller of `register` does next.
#[derive(Clone, Debug)]
pub enum RegisterStep {
    /// The token has been decided already: this is its record.
    Known(EdgeToken),
    /// Another caller is validating the token: wait for its result.
    Wait,
    /// This caller holds the token's slot and asks upstream.
    Validate,
}

/// The record of a token that has been decided already.
pub open spec fn decided(tokens: Map<Seq<char>, EdgeToken>, t: Seq<char>) -> bool {
    tokens.contains_key(t) && tokens[t].status != TokenValidationStatus::Unknown
}

/// The step of a caller that registers `t`, and the in-flight set after it.
pub open spec fn begin_step(
    tokens: Map<Seq<char>, EdgeToken>,
    in_flight: Set<Seq<char>>,
    t: Seq<char>,
) -> (RegisterStep, Set<Seq<char>>) {
    if decided(tokens, t) {
        (RegisterStep::Known(tokens[t]), in_flight)
    } else if in_flight.contains(t) {
        (RegisterStep::Wait, in_flight)
    } else {
        (RegisterStep::Validate, in_flight.insert(t))
    }
}

/// How many of `n` successive registrations of `t`, with no validation
/// completing in between, ask upstream.
pub open spec fn upstream_calls(
    tokens: Map<Seq<char>, EdgeToken>,
    in_flight: Set<Seq<char>>,
    t: Seq<char>,
    n: nat,
) -> nat
    decreases n,
{
    if n == 0 {
        0
    } else {
        let (step, next) = begin_step(tokens, in_flight, t);
        (if step is Validate { 1nat } else { 0nat }) + upstream_calls(tokens, next, t, (n - 1) as nat)
    }
}

proof fn lemma_waiters_do_not_call(
    tokens: Map<Seq<char>, EdgeToken>,
    in_flight: Set<Seq<char>>,
    t: Seq<char>,
    n: nat,
)
    requires
        in_flight.contains(t),
    ensures
        upstream_calls(tokens, in_flight, t, n) == 0,
    decreases n,
{
    if n > 0 {
        lemma_waiters_do_not_call(tokens, in_flight, t, (n - 1) as nat);
    }
}

/// Of any number of overlapping registrations of one undecided token that no
/// one is validating, exactly one asks upstream.
pub proof fn lemma_single_flight(
    tokens: Map<Seq<char>, EdgeToken>,
    in_flight: Set<Seq<char>>,
    t: Seq<char>,
    n: nat,
)
    requires
        n >= 1,
        !decided(tokens, t),
        !in_flight.contains(t),
    ensures
        upstream_calls(tokens, in_flight, t, n) == 1,
{
    lemma_waiters_do_not_call(tokens, in_flight.insert(t), t, (n - 1) as nat);
}

/// The first record of `list`, from position `i` on, under key `t`.
pub open spec fn first_with_key(list: Seq<EdgeToken>, t: Seq<char>, i: int) -> Option<EdgeToken>
    decreases list.len() - i,
{
    if i < 0 || i >= list.len() {
        None
    } else if list[i].token@ == t {
        Some(list[i])
    } else {
        first_with_key(list, t, i + 1)
    }
}

/// The record for `token` given the tokens that upstream recognised.
pub open spec fn validated_record(list: Seq<EdgeToken>, token: String) -> EdgeToken {
    match first_with_key(list, token@, 0) {
        Some(x) => EdgeToken { status: TokenValidationStatus::Validated, ..x },
        None => EdgeToken {
            token,
            environment: None,
            projects: ProjectScope::Wildcard,
            token_type: None,
            status: TokenValidationStatus::Invalid,
        },
    }
}

/// The single-flight bookkeeping of token validation: which tokens some
/// caller is asking upstream about.
pub struct TokenValidator {
    in_flight: KeyedMap<()>,
}

impl TokenValidator {
    pub closed spec fn in_flight(&self) -> Set<Seq<char>> {
        self.in_flight@.dom()
    }

    pub closed spec fn wf(&self) -> bool {
        self.in_flight.wf()
    }

    pub fn new() -> (r: TokenValidator)
        ensures
            r.wf(),
            r.in_flight() == Set::<Seq<char>>::empty(),
    {
        let r = TokenValidator { in_flight: KeyedMap::new() };
        assert(r.in_flight() =~= Set::<Seq<char>>::empty());
        r
    }

    /// The first step of registering `token`: answer from the token cache,
    /// wait for the caller in flight, or take the slot and validate.
    pub fn begin_register(&mut self, caches: &EdgeCaches, token: &String) -> (r: RegisterStep)
        requires
            old(self).wf(),
            caches.wf(),
        ensures
            final(self).wf(),
            (r, final(self).in_flight()) == begin_step(caches.tokens@, old(self).in_flight(), token@),
    {
        match caches.tokens.get(token) {
            Some(record) => {
                if record.status != TokenValidationStatus::Unknown {
                    return RegisterStep::Known(record);
                }
            },
            None => {},
        }
        if self.in_flight.get(token).is_some() {
            RegisterStep::Wait
        } else {
            self.in_flight.insert(token.clone(), ());
            assert(self.in_flight() =~= old(self).in_flight().insert(token@));
            RegisterStep::Validate
        }
    }

    /// Completes the validation of `token` with upstream's answer: records
    /// the token, registers a refresh target for a validated one, and frees
    /// the slot.
    pub fn complete_validation(
        &mut self,
        caches: &mut EdgeCaches,
        token: String,
        upstream: Result<Vec<EdgeToken>, ValidationError>,
    ) -> (r: Result<EdgeToken, ValidationError>)
        requires
            old(self).wf(),
            old(caches).wf(),
        ensures
            final(self).wf(),
            final(caches).wf(),
            final(self).in_flight() == old(self).in_flight().remove(token@),
            final(caches).features == old(caches).features,
            upstream is Err ==> r == Err::<EdgeToken, ValidationError>(upstream->Err_0),
            upstream is Err ==> final(caches).tokens@ == old(caches).tokens@,
            upstream is Err ==> final(caches).targets@ == old(caches).targets@,
            upstream is Ok ==> r == Ok::<EdgeToken, ValidationError>(
                validated_record(upstream->Ok_0@, token),
            ),
            upstream is Ok ==> final(caches).tokens@ == old(caches).tokens@.insert(
                token@,
                validated_record(upstream->Ok_0@, token),
            ),
            upstream is Ok && validated_record(upstream->Ok_0@, token).status
                == TokenValidationStatus::Validated ==> final(caches).targets@ == register_targets(
                old(caches).targets@,
                fresh_target(validated_record(upstream->Ok_0@, token)),
            ),
            upstream is Ok && validated_record(upstream->Ok_0@, token).status
                != TokenValidationStatus::Validated ==> final(caches).targets@ == old(caches).targets@,
    {
        self.in_flight.remove(&token);
        assert(self.in_flight() =~= old(self).in_flight().remove(token@));
        match upstream {
            Err(e) => {
                Err(e)
            },
            Ok(list) => {
                let mut found: Option<usize> = None;
                let mut i: usize = 0;
                while i < list.len()
                    invariant
                        i <= list.len(),
                        match found {
                            None => first_with_key(list@, token@, 0) == first_with_key(
                                list@,
                                token@,
                                i as int,
                            ),
                            Some(j) => j < list.len() && list@[j as int].token@ == token@ && first_with_key(list@, token@, 0) == Some(
                                list@[j as int],
                            ),
                        },
                    decreases list.len() - i,
                {
                    if found.is_none() && list[i].token == token {
                        found = Some(i);
                    }
                    i = i + 1;
                }
                let record = match found {
                    Some(j) => list[j].with_status(TokenValidationStatus::Validated),
                    None => EdgeToken::invalid(token),
                };
                caches.put_token(record.duplicate());
                if record.status == TokenValidationStatus::Validated {
                    caches.targets.register(TokenRefresh::new(record.duplicate()));
                }
                Ok(record)
            },
        }
    }
}

} // verus!
