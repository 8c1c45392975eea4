//! The deterministic finite automaton behind a compiled lexer.
//!
//! The automaton itself is `regex_automata`'s dense DFA; verified code treats
//! a DFA value as opaque and reasons about it through the uninterpreted
//! functions below, which name what the automaton holds: its set of valid
//! state identifiers, its transition tables, the pattern identifiers each
//! state reports, and its dead states. Every method of the automaton that the
//! engine calls goes through a trusted wrapper whose contract speaks over
//! those names.

use vstd::prelude::*;

verus! {

use regex_automata::dfa::dense::DFA;
use regex_automata::dfa::dense::BuildError;

/// `regex_automata`'s dense DFA, declared so that values of it can flow
/// through verified code.
#[verifier::external_type_specification]
#[verifier::external_body]
#[verifier::reject_recursive_types(T)]
pub struct ExDenseDfa<T>(DFA<T>);

/// `regex_automata`'s error for a failed DFA construction, declared so that
/// the build wrapper can return it unchanged.
#[verifier::external_type_specification]
#[verifier::external_body]
pub struct ExBuildError(BuildError);

/// The set of valid state identifiers of the automaton, as exposed by
/// `StateID::as_usize`. Every wrapper below returns members of this set and
/// must only be fed members of it: `regex_automata` documents its methods for
/// valid identifiers only, and a valid identifier converts back to a
/// `StateID` without failure.
pub uninterp spec fn dfa_states(d: DFA<Vec<u32>>) -> Set<nat>;

/// The byte-transition table of the automaton: the state reached from state
/// `s` on byte `b` is `dfa_trans(d)[(s, b)]`.
pub uninterp spec fn dfa_trans(d: DFA<Vec<u32>>) -> Map<(nat, u8), nat>;

/// The end-of-input transition table of the automaton. `regex_automata`
/// treats end-of-input as one extra symbol of the alphabet, and delays every
/// match by one symbol, so a search must take this transition once after the
/// last byte.
pub uninterp spec fn dfa_eoi(d: DFA<Vec<u32>>) -> Map<nat, nat>;

/// The pattern identifiers that state `s` reports, in the order
/// `Automaton::match_pattern` reports them; the empty sequence exactly when
/// `s` is not a match state.
pub uninterp spec fn dfa_match_ids(d: DFA<Vec<u32>>) -> Map<nat, Seq<nat>>;

/// The dead states of the automaton: states a search can never leave.
pub uninterp spec fn dfa_dead(d: DFA<Vec<u32>>) -> Set<nat>;

/// Whether building one automaton over this pattern list succeeds. The build
/// is deterministic in the sources: it fails exactly on a malformed or
/// unsupported regex (or one over the compiler's fixed size limits), never on
/// anything outside the pattern list.
pub uninterp spec fn dense_build_ok(patterns: Seq<Seq<char>>) -> bool;

/// Whether the automaton carries anchored start states, as every automaton
/// the build wrapper returns does; looking its anchored start state up
/// succeeds exactly then.
pub uninterp spec fn dfa_anchored_ok(d: DFA<Vec<u32>>) -> bool;

/// The automaton serialised for little-endian targets, without leading
/// padding: what `DFA::to_bytes_little_endian` writes, a function of the
/// automaton alone.
pub uninterp spec fn dfa_le_blob(d: DFA<Vec<u32>>) -> Seq<u8>;

/// The automaton serialised for big-endian targets, without leading padding:
/// what `DFA::to_bytes_big_endian` writes, a function of the automaton alone.
pub uninterp spec fn dfa_be_blob(d: DFA<Vec<u32>>) -> Seq<u8>;

/// Structural facts that hold of every automaton the build wrapper returns,
/// quoted from `regex_automata`'s documentation of dead states: a dead state
/// is a non-matching state all of whose outgoing transitions, the
/// end-of-input transition included, lead back to itself.
pub open spec fn dfa_wf(d: DFA<Vec<u32>>) -> bool {
    &&& forall|s: nat, b: u8| dfa_dead(d).contains(s) ==> #[trigger] dfa_trans(d)[(s, b)] == s
    &&& forall|s: nat| dfa_dead(d).contains(s) ==> #[trigger] dfa_eoi(d)[s] == s
    &&& forall|s: nat| dfa_dead(d).contains(s) ==> (#[trigger] dfa_match_ids(d)[s]).len() == 0
}

/// Relies on `dense::Builder::build_many`: compiles the given patterns
/// jointly into one dense DFA whose pattern identifiers are the indices into
/// `patterns`, configured anchored (matches must start at the beginning of
/// the searched slice), with `MatchKind::All` (an accepting state reports all
/// accepting patterns, which enables longest-match scanning), and minimised.
/// Success depends on the pattern list alone; a built automaton satisfies the
/// dead-state facts of [`dfa_wf`] and carries anchored start states.
#[verifier::external_body]
pub(crate) fn dense_build(patterns: &Vec<String>) -> (r: Result<DFA<Vec<u32>>, BuildError>)
    ensures
        r is Ok <==> dense_build_ok(patterns@.map(|i: int, s: String| s@)),
        r matches Ok(d) ==> dfa_wf(d) && dfa_anchored_ok(d),
{
    regex_automata::dfa::dense::Builder::new()
        .configure(
            DFA::config()
                .match_kind(regex_automata::MatchKind::All)
                .start_kind(regex_automata::dfa::StartKind::Anchored)
                .minimize(true),
        )
        .build_many(patterns)
}

/// Relies on `DFA::to_bytes_little_endian`: serialises the automaton for
/// little-endian targets. The crate pads the buffer so that the data begins
/// at a 4-byte-aligned address and returns the padding length; the wrapper
/// strips that padding, so the returned bytes are the blob proper, to be
/// placed at a 4-byte-aligned address by whoever embeds them.
#[verifier::external_body]
pub(crate) fn dense_to_bytes_little(d: &DFA<Vec<u32>>) -> (r: Vec<u8>)
    ensures
        r@ == dfa_le_blob(*d),
{
    let (mut bytes, padding) = d.to_bytes_little_endian();
    bytes.split_off(padding)
}

/// Relies on `DFA::to_bytes_big_endian`: serialises the automaton for
/// big-endian targets, with the leading padding stripped as in
/// [`dense_to_bytes_little`].
#[verifier::external_body]
pub(crate) fn dense_to_bytes_big(d: &DFA<Vec<u32>>) -> (r: Vec<u8>)
    ensures
        r@ == dfa_be_blob(*d),
{
    let (mut bytes, padding) = d.to_bytes_big_endian();
    bytes.split_off(padding)
}

/// Relies on `DFA::from_bytes`, which rejects bytes that are not 4-byte
/// aligned or serialised for the other endianness and validates the label,
/// version and tables — every transition target a valid state identifier, so
/// the other wrappers may be called on the result — and on `DFA::to_owned`,
/// which copies the borrowed automaton onto the heap. The validation does
/// not check that the dead state's transitions loop back to itself, so
/// nothing here promises the dead-state facts of [`dfa_wf`]: the caller must
/// establish them through the wrappers.
#[verifier::external_body]
pub(crate) fn dense_from_blob(bytes: &[u8]) -> (r: Option<DFA<Vec<u32>>>) {
    match DFA::from_bytes(bytes) {
        Ok((d, _)) => Some(d.to_owned()),
        Err(_) => None,
    }
}

/// Relies on the representation of dead states: `Automaton::is_dead_state`
/// documents that the dead state is always state `0` and that there is
/// exactly one of them, and the dense implementation compares the identifier
/// against that constant; every table holds it as its first state.
#[verifier::external_body]
pub(crate) fn dense_dead_state_id(d: &DFA<Vec<u32>>) -> (r: usize)
    ensures
        dfa_dead(*d) == set![r as nat],
        dfa_states(*d).contains(r as nat),
{
    regex_automata::util::primitives::StateID::ZERO.as_usize()
}

/// Relies on `Automaton::start_state` with an anchored configuration: returns
/// the valid identifier of the automaton's anchored start state, and `None`
/// exactly where the automaton does not carry anchored start states (with no
/// look-behind byte in the configuration, no other error path exists).
#[verifier::external_body]
pub(crate) fn dense_start_anchored(d: &DFA<Vec<u32>>) -> (r: Option<usize>)
    ensures
        r is Some <==> dfa_anchored_ok(*d),
        r matches Some(s) ==> dfa_states(*d).contains(s as nat),
{
    let cfg = regex_automata::util::start::Config::new().anchored(regex_automata::Anchored::Yes);
    regex_automata::dfa::Automaton::start_state(d, &cfg).ok().map(|s| s.as_usize())
}

/// Relies on `Automaton::next_state`: the byte-transition function, which
/// takes a valid state identifier to a valid state identifier.
#[verifier::external_body]
pub(crate) fn dense_next_state(d: &DFA<Vec<u32>>, s: usize, b: u8) -> (r: usize)
    requires
        dfa_states(*d).contains(s as nat),
    ensures
        r as nat == dfa_trans(*d)[(s as nat, b)],
        dfa_states(*d).contains(r as nat),
{
    let sid = regex_automata::util::primitives::StateID::new(s).unwrap();
    regex_automata::dfa::Automaton::next_state(d, sid, b).as_usize()
}

/// Relies on `Automaton::next_eoi_state`: the end-of-input transition, which
/// takes a valid state identifier to a valid state identifier.
#[verifier::external_body]
pub(crate) fn dense_next_eoi_state(d: &DFA<Vec<u32>>, s: usize) -> (r: usize)
    requires
        dfa_states(*d).contains(s as nat),
    ensures
        r as nat == dfa_eoi(*d)[s as nat],
        dfa_states(*d).contains(r as nat),
{
    let sid = regex_automata::util::primitives::StateID::new(s).unwrap();
    regex_automata::dfa::Automaton::next_eoi_state(d, sid).as_usize()
}

/// Relies on `Automaton::is_match_state`: true if and only if the state is an
/// accepting state, that is, reports at least one pattern.
#[verifier::external_body]
pub(crate) fn dense_is_match_state(d: &DFA<Vec<u32>>, s: usize) -> (r: bool)
    requires
        dfa_states(*d).contains(s as nat),
    ensures
        r == (dfa_match_ids(*d)[s as nat].len() > 0),
{
    let sid = regex_automata::util::primitives::StateID::new(s).unwrap();
    regex_automata::dfa::Automaton::is_match_state(d, sid)
}

/// Relies on `Automaton::is_dead_state`: true if and only if the state is the
/// dead state, which a search can never leave.
#[verifier::external_body]
pub(crate) fn dense_is_dead_state(d: &DFA<Vec<u32>>, s: usize) -> (r: bool)
    requires
        dfa_states(*d).contains(s as nat),
    ensures
        r == dfa_dead(*d).contains(s as nat),
{
    let sid = regex_automata::util::primitives::StateID::new(s).unwrap();
    regex_automata::dfa::Automaton::is_dead_state(d, sid)
}

/// Relies on `Automaton::match_pattern`: the pattern identifier at position
/// `index` among those the accepting state `s` reports.
#[verifier::external_body]
pub(crate) fn dense_match_pattern(d: &DFA<Vec<u32>>, s: usize, index: usize) -> (r: u32)
    requires
        dfa_states(*d).contains(s as nat),
        (index as nat) < dfa_match_ids(*d)[s as nat].len(),
    ensures
        r as nat == dfa_match_ids(*d)[s as nat][index as int],
{
    let sid = regex_automata::util::primitives::StateID::new(s).unwrap();
    regex_automata::dfa::Automaton::match_pattern(d, sid, index).as_u32()
}

} // verus!
