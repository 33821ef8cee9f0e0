//! Endpoint resolution: a sequential single-elimination tournament over the
//! catalog's listing. Each pairwise comparison is delegated to the
//! generative service; the comparison's verdict decides which endpoint goes
//! on as champion. The tournament is order-dependent and not transitive: it
//! returns one defensible match, not a globally best one.

use vstd::prelude::*;
use crate::json::{str_equal, JsonValue};
use crate::models::{Endpoint, GatewayError, ResolveError};

verus! {

/// The outcome of one pairwise comparison.
#[derive(Debug, Clone, Copy, PartialEq, Eq, Structural)]
pub enum Verdict {
    /// The current champion is the closer match, or the response did not
    /// say: the champion is retained.
    Reference,
    /// The candidate is the closer match and becomes champion.
    Candidate,
}

/// The verdict a comparison response carries: `Candidate` exactly when the
/// response is an object whose `closer_endpoint` key holds the text
/// `candidate`; every other response keeps the reference.
pub open spec fn spec_verdict(v: JsonValue) -> Verdict {
    if v.spec_get_text("closer_endpoint"@) == Some("candidate"@) {
        Verdict::Candidate
    } else {
        Verdict::Reference
    }
}

/// Reads a comparison response. A verdict field that is absent or does not
/// hold text defaults the verdict to the reference; that is a defined
/// fallback, not a failure.
pub fn verdict_from_value(v: &JsonValue) -> (r: Verdict)
    ensures
        r == spec_verdict(*v),
{
    proof {
        reveal_strlit("candidate");
    }
    match v.get("closer_endpoint") {
        Some(x) => match x.as_text() {
            Some(s) => {
                if str_equal(s.as_str(), "candidate") {
                    Verdict::Candidate
                } else {
                    Verdict::Reference
                }
            },
            None => Verdict::Reference,
        },
        None => Verdict::Reference,
    }
}

/// Turns a gateway outcome into a verdict. A gateway failure becomes a
/// resolution failure; a reply that parsed carries its own verdict.
pub fn verdict_from_response(r: Result<JsonValue, GatewayError>) -> (out: Result<
    Verdict,
    ResolveError,
>)
    ensures
        r matches Ok(v) ==> out == Ok::<Verdict, ResolveError>(spec_verdict(v)),
        r matches Err(e) ==> out == Err::<Verdict, ResolveError>(ResolveError::Gateway(e)),
{
    match r {
        Ok(v) => Ok(verdict_from_value(&v)),
        Err(e) => Err(ResolveError::Gateway(e)),
    }
}

/// The champion left after playing `rest` against `champion` under the
/// verdicts, in order: one comparison per element of `rest`.
pub open spec fn spec_winner(champion: Endpoint, rest: Seq<Endpoint>, verdicts: Seq<Verdict>) -> Endpoint
    decreases rest.len(),
{
    if rest.len() == 0 || verdicts.len() == 0 {
        champion
    } else {
        spec_winner(
            if verdicts[0] is Candidate {
                rest[0]
            } else {
                champion
            },
            rest.drop_first(),
            verdicts.drop_first(),
        )
    }
}

/// The tournament's winner is one of the endpoints it was played over.
pub proof fn lemma_winner_membership(champion: Endpoint, rest: Seq<Endpoint>, verdicts: Seq<Verdict>)
    ensures
        spec_winner(champion, rest, verdicts) == champion || rest.contains(
            spec_winner(champion, rest, verdicts),
        ),
    decreases rest.len(),
{
    if rest.len() == 0 || verdicts.len() == 0 {
    } else {
        let next = if verdicts[0] is Candidate {
            rest[0]
        } else {
            champion
        };
        lemma_winner_membership(next, rest.drop_first(), verdicts.drop_first());
        let w = spec_winner(champion, rest, verdicts);
        if w == next {
            if verdicts[0] is Candidate {
                assert(rest[0] == w);
                assert(rest.contains(w));
            }
        } else {
            let j = choose|j: int| 0 <= j < rest.drop_first().len() && rest.drop_first()[j] == w;
            assert(rest[j + 1] == w);
            assert(rest.contains(w));
        }
    }
}

/// Appending one more comparison to a played prefix plays that comparison
/// on the prefix's champion.
pub proof fn lemma_winner_push(
    champion: Endpoint,
    rest: Seq<Endpoint>,
    verdicts: Seq<Verdict>,
    e: Endpoint,
    v: Verdict,
)
    requires
        rest.len() == verdicts.len(),
    ensures
        spec_winner(champion, rest.push(e), verdicts.push(v)) == (
        if v is Candidate {
            e
        } else {
            spec_winner(champion, rest, verdicts)
        }),
    decreases rest.len(),
{
    if rest.len() == 0 {
        assert(rest.push(e)[0] == e);
        assert(verdicts.push(v)[0] == v);
        assert(rest.push(e).drop_first() =~= Seq::<Endpoint>::empty());
        assert(verdicts.push(v).drop_first() =~= Seq::<Verdict>::empty());
        let first = if v is Candidate {
            e
        } else {
            champion
        };
        assert(spec_winner(champion, rest.push(e), verdicts.push(v)) == spec_winner(
            first,
            Seq::<Endpoint>::empty(),
            Seq::<Verdict>::empty(),
        ));
        assert(spec_winner(first, Seq::<Endpoint>::empty(), Seq::<Verdict>::empty()) == first);
    } else {
        assert(rest.push(e)[0] == rest[0]);
        assert(verdicts.push(v)[0] == verdicts[0]);
        assert(rest.push(e).drop_first() =~= rest.drop_first().push(e));
        assert(verdicts.push(v).drop_first() =~= verdicts.drop_first().push(v));
        let next = if verdicts[0] is Candidate {
            rest[0]
        } else {
            champion
        };
        lemma_winner_push(next, rest.drop_first(), verdicts.drop_first(), e, v);
        assert(spec_winner(champion, rest.push(e), verdicts.push(v)) == spec_winner(
            next,
            rest.drop_first().push(e),
            verdicts.drop_first().push(v),
        ));
        assert(spec_winner(champion, rest, verdicts) == spec_winner(
            next,
            rest.drop_first(),
            verdicts.drop_first(),
        ));
    }
}

/// One in-flight tournament: the current champion, the endpoints still to
/// be compared in listing order, and the comparisons made so far. The
/// comparisons themselves happen outside; each outcome is handed back
/// through `step`.
pub struct Tournament {
    champion: Option<Endpoint>,
    remaining: Vec<Endpoint>,
    compared: usize,
    listing: Ghost<Seq<Endpoint>>,
    verdicts: Ghost<Seq<Verdict>>,
}

impl Tournament {
    /// The catalog listing the tournament was started over.
    pub closed spec fn spec_listing(self) -> Seq<Endpoint> {
        self.listing@
    }

    /// The current champion; `None` exactly for an empty listing.
    pub closed spec fn spec_champion(self) -> Option<Endpoint> {
        self.champion
    }

    /// The endpoints not yet compared, in listing order.
    pub closed spec fn spec_remaining(self) -> Seq<Endpoint> {
        self.remaining@
    }

    /// How many pairwise comparisons have been played.
    pub closed spec fn spec_compared(self) -> int {
        self.compared as int
    }

    /// The verdicts played so far, in order.
    pub closed spec fn spec_verdicts(self) -> Seq<Verdict> {
        self.verdicts@
    }

    /// The tournament's invariant: the champion is the winner of the played
    /// prefix of the listing, and what remains is exactly its unplayed
    /// suffix.
    pub open spec fn wf(self) -> bool {
        &&& self.spec_verdicts().len() == self.spec_compared()
        &&& self.spec_listing().len() <= usize::MAX
        &&& if self.spec_listing().len() == 0 {
            &&& self.spec_champion() is None
            &&& self.spec_remaining().len() == 0
            &&& self.spec_compared() == 0
        } else {
            &&& self.spec_compared() + 1 + self.spec_remaining().len()
                == self.spec_listing().len()
            &&& self.spec_remaining() == self.spec_listing().skip(
                self.spec_compared() + 1,
            )
            &&& self.spec_champion() == Some(
                spec_winner(
                    self.spec_listing()[0],
                    self.spec_listing().subrange(1, self.spec_compared() + 1),
                    self.spec_verdicts(),
                ),
            )
        }
    }

    /// Opens a tournament over a catalog listing. The first listed endpoint
    /// is the initial champion; an empty listing is a finished tournament
    /// with no winner — a defined outcome, not an error.
    pub fn start(endpoints: Vec<Endpoint>) -> (t: Tournament)
        ensures
            t.wf(),
            t.spec_listing() == endpoints@,
            t.spec_compared() == 0,
            t.spec_verdicts() == Seq::<Verdict>::empty(),
            endpoints@.len() == 0 ==> t.spec_champion() is None,
            endpoints@.len() > 0 ==> t.spec_champion() == Some(endpoints@[0])
                && t.spec_remaining() == endpoints@.drop_first(),
    {
        let ghost listing = endpoints@;
        let mut remaining = endpoints;
        let champion: Option<Endpoint> = if remaining.len() > 0 {
            Some(remaining.remove(0))
        } else {
            None
        };
        proof {
            if listing.len() > 0 {
                assert(listing.remove(0) =~= listing.skip(1));
                assert(listing.skip(1) =~= listing.drop_first());
            }
        }
        Tournament {
            champion,
            remaining,
            compared: 0,
            listing: Ghost(listing),
            verdicts: Ghost(Seq::empty()),
        }
    }

    /// How many pairwise comparisons have been played so far.
    pub fn comparisons(&self) -> (r: usize)
        ensures
            r == self.spec_compared(),
    {
        self.compared
    }

    /// Whether every listed endpoint has been through a comparison.
    pub fn is_finished(&self) -> (r: bool)
        ensures
            r == (self.spec_remaining().len() == 0),
    {
        self.remaining.len() == 0
    }

    /// Plays one comparison: the next remaining endpoint is the candidate,
    /// and it replaces the champion exactly when the verdict says so. The
    /// compared endpoint leaves `remaining` whatever the outcome.
    pub fn step(&mut self, verdict: Verdict)
        requires
            old(self).wf(),
            old(self).spec_remaining().len() > 0,
        ensures
            final(self).wf(),
            final(self).spec_listing() == old(self).spec_listing(),
            final(self).spec_compared() == old(self).spec_compared() + 1,
            final(self).spec_verdicts() == old(self).spec_verdicts().push(verdict),
            final(self).spec_remaining() == old(self).spec_remaining().drop_first(),
            final(self).spec_champion() == Some(
                if verdict is Candidate {
                    old(self).spec_remaining()[0]
                } else {
                    old(self).spec_champion()->Some_0
                },
            ),
    {
        let candidate = self.remaining.remove(0);
        let ghost old_champion = self.champion->Some_0;
        let ghost old_compared = self.compared as int;
        let ghost old_verdicts = self.verdicts@;
        if matches!(verdict, Verdict::Candidate) {
            self.champion = Some(candidate);
        }
        self.compared = self.compared + 1;
        proof {
            self.verdicts@ = old_verdicts.push(verdict);
        }
        proof {
            let listing = self.listing@;
            assert(old(self).spec_remaining().remove(0) =~= old(self).spec_remaining()
                .drop_first());
            assert(old(self).spec_remaining().drop_first() =~= listing.skip(old_compared + 2));
            let played = listing.subrange(1, old_compared + 1);
            let played1 = listing.subrange(1, old_compared + 2);
            assert(old(self).spec_remaining()[0] == listing[old_compared + 1]);
            assert(played1 =~= played.push(listing[old_compared + 1]));
            lemma_winner_push(
                listing[0],
                played,
                old_verdicts,
                listing[old_compared + 1],
                verdict,
            );
        }
    }

    /// The prompt for the next comparison: the intent's description and
    /// flattened fields against the champion and the next candidate. `None`
    /// once the tournament is finished.
    pub fn comparison_prompt(&self, input_description: &str, input_fields: &str) -> (r: Option<
        String,
    >)
        requires
            self.wf(),
        ensures
            self.spec_remaining().len() == 0 ==> r is None,
            self.spec_remaining().len() > 0 ==> (r matches Some(p) && p@ == spec_comparison_prompt(
                input_description@,
                input_fields@,
                self.spec_champion()->Some_0,
                self.spec_remaining()[0],
            )),
    {
        if self.remaining.len() == 0 {
            return None;
        }
        match &self.champion {
            Some(champion) => {
                let prompt = comparison_prompt_text(
                    input_description,
                    input_fields,
                    champion,
                    &self.remaining[0],
                );
                Some(prompt)
            },
            None => None,
        }
    }

    /// Closes a finished tournament, yielding its winner: exactly one
    /// endpoint of the listing when the listing was non-empty, and none
    /// when it was empty.
    pub fn winner(self) -> (r: Option<Endpoint>)
        requires
            self.wf(),
            self.spec_remaining().len() == 0,
        ensures
            self.spec_listing().len() == 0 ==> r is None,
            self.spec_listing().len() > 0 ==> r == Some(
                spec_winner(
                    self.spec_listing()[0],
                    self.spec_listing().drop_first(),
                    self.spec_verdicts(),
                ),
            ),
            r matches Some(e) ==> self.spec_listing().contains(e),
    {
        proof {
            let listing = self.listing@;
            if listing.len() > 0 {
                assert(listing.subrange(1, self.spec_compared() + 1) =~= listing.drop_first());
                lemma_winner_membership(listing[0], listing.drop_first(), self.verdicts@);
                let w = spec_winner(listing[0], listing.drop_first(), self.verdicts@);
                if w == listing[0] {
                    assert(listing.contains(w));
                } else {
                    let j = choose|j: int|
                        0 <= j < listing.drop_first().len() && listing.drop_first()[j] == w;
                    assert(listing[j + 1] == w);
                    assert(listing.contains(w));
                }
            }
        }
        self.champion
    }
}

/// Exactly `|C| - 1` comparisons decide a non-empty catalog of size `|C|`,
/// and zero decide a catalog of one.
pub proof fn lemma_comparisons_at_finish(t: Tournament)
    requires
        t.wf(),
        t.spec_remaining().len() == 0,
        t.spec_listing().len() > 0,
    ensures
        t.spec_compared() == t.spec_listing().len() - 1,
        t.spec_listing().len() == 1 ==> t.spec_compared() == 0,
{
}

/// The prompt of one pairwise comparison.
pub open spec fn spec_comparison_prompt(
    input_description: Seq<char>,
    input_fields: Seq<char>,
    reference: Endpoint,
    candidate: Endpoint,
) -> Seq<char> {
    "Compare endpoints vs input:\nInput: "@ + input_description + "\nFields: "@ + input_fields
        + "\nReference: ID: "@ + reference.id@ + ", Text: "@ + reference.text@
        + ", Description: "@ + reference.description@ + "\nCandidate: ID: "@ + candidate.id@
        + ", Text: "@ + candidate.text@ + ", Description: "@ + candidate.description@
        + "\nJSON: {\"closer_endpoint\": \"reference\" or \"candidate\"}"@
}

/// Builds the comparison prompt for one reference/candidate pair.
fn comparison_prompt_text(
    input_description: &str,
    input_fields: &str,
    reference: &Endpoint,
    candidate: &Endpoint,
) -> (r: String)
    ensures
        r@ == spec_comparison_prompt(input_description@, input_fields@, *reference, *candidate),
{
    let mut out = String::new();
    out.append("Compare endpoints vs input:\nInput: ");
    out.append(input_description);
    out.append("\nFields: ");
    out.append(input_fields);
    out.append("\nReference: ID: ");
    out.append(reference.id.as_str());
    out.append(", Text: ");
    out.append(reference.text.as_str());
    out.append(", Description: ");
    out.append(reference.description.as_str());
    out.append("\nCandidate: ID: ");
    out.append(candidate.id.as_str());
    out.append(", Text: ");
    out.append(candidate.text.as_str());
    out.append(", Description: ");
    out.append(candidate.description.as_str());
    out.append("\nJSON: {\"closer_endpoint\": \"reference\" or \"candidate\"}");
    proof {
        assert(out@ =~= spec_comparison_prompt(
            input_description@,
            input_fields@,
            *reference,
            *candidate,
        ));
    }
    out
}

/// Tournament resolution as one pass over the catalog listing, one verdict
/// per comparison: exactly one endpoint of a non-empty listing wins, and an
/// empty listing yields an empty match rather than an error.
pub fn find_matching_endpoint(endpoints: Vec<Endpoint>, verdicts: &Vec<Verdict>) -> (r: Vec<
    Endpoint,
>)
    requires
        endpoints@.len() == 0 || verdicts@.len() >= endpoints@.len() - 1,
    ensures
        endpoints@.len() == 0 ==> r@.len() == 0,
        endpoints@.len() > 0 ==> r@.len() == 1 && r@[0] == spec_winner(
            endpoints@[0],
            endpoints@.drop_first(),
            verdicts@.take(endpoints@.len() - 1),
        ) && endpoints@.contains(r@[0]),
    {
    let ghost listing = endpoints@;
    let mut t = Tournament::start(endpoints);
    let mut i: usize = 0;
    proof {
        assert(verdicts@.take(0) =~= Seq::<Verdict>::empty());
    }
    while !t.is_finished()
        invariant
            t.wf(),
            t.spec_listing() == listing,
            listing.len() == 0 || verdicts@.len() >= listing.len() - 1,
            i == t.spec_compared(),
            t.spec_verdicts() == verdicts@.take(i as int),
        decreases t.spec_remaining().len(),
    {
        t.step(verdicts[i]);
        proof {
            assert(verdicts@.take(i as int).push(verdicts@[i as int]) =~= verdicts@.take(
                i + 1,
            ));
        }
        i = i + 1;
    }
    proof {
        if listing.len() > 0 {
            lemma_comparisons_at_finish(t);
        }
    }
    let mut out: Vec<Endpoint> = Vec::new();
    match t.winner() {
        Some(e) => {
            out.push(e);
        },
        None => {},
    }
    out
}

} // verus!
