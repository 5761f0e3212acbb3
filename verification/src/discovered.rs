//! What the discovery pass finds, said of the set of addresses that it
//! scanned.

use vstd::prelude::*;

use crate::discovery::falls_through;
use crate::discovery::looked_at;
use crate::discovery::noted;
use crate::discovery::scanned;
use crate::discovery::static_target;
use crate::discovery::view_at;
use crate::discovery::with_subroutine;
use crate::dol::reader::Reader;
use crate::fact::FactsView;
use crate::powerpc::instruction::branch_info::BranchInfo;
use crate::powerpc::instruction::decoded_instruction::DecodedInstruction;
use crate::powerpc::instruction::encoded_instruction::decode;
use crate::powerpc::instruction::encoded_instruction::ParseError;

verus! {

/// The instruction at an address of the executable, or why the word there
/// is none.
pub open spec fn parsed_at(dol: Reader, addr: u32) -> Result<DecodedInstruction, ParseError> {
    decode(dol.word_at(addr)->0, addr)
}

/// What the branch at an address says of itself, if a branch stands there.
pub open spec fn branch_at(dol: Reader, addr: u32) -> Option<BranchInfo> {
    match parsed_at(dol, addr) {
        Ok(instruction) => instruction.branch_descriptor(),
        Err(_) => None,
    }
}

/// Whether the instruction at `source` is a branch to `target`.
pub open spec fn branches_to(dol: Reader, source: u32, target: u32) -> bool {
    static_target(parsed_at(dol, source)) == Some(target)
}

/// Whether the instruction at `source` is a call of `target`.
pub open spec fn calls(dol: Reader, source: u32, target: u32) -> bool {
    branches_to(dol, source, target) && branch_at(dol, source)->0.link
}

/// Whether the instruction at an address ends a basic block: it is a
/// branch that does not link.
pub open spec fn is_block_end(dol: Reader, addr: u32) -> bool {
    branch_at(dol, addr) is Some && !branch_at(dol, addr)->0.link
}

/// Where control goes on after the branch at an address that ends a basic
/// block: to its target, if it has a static one, and to the next instruction
/// if it is conditional and the next address is a 32-bit number.
pub open spec fn block_end_successors(dol: Reader, addr: u32) -> Set<u32> {
    let info = branch_at(dol, addr)->0;
    match info.target {
        Some(target) => if info.conditional() && addr <= u32::MAX - 4 {
            set![target, (addr + 4) as u32]
        } else {
            set![target]
        },
        None => Set::empty(),
    }
}

/// What a scan of the addresses in `scanned` notes about an address.
///
/// - The address is a branch target if a scanned branch goes there; its
///   sources are the scanned branches that do.
/// - It is a subroutine if it is the entry point or a scanned call goes
///   there.
/// - It is a call if it was scanned and a call stands there.
/// - It is the end of a basic block if it was scanned and a branch stands
///   there that does not link.
/// - It is a parse error if it was scanned and no instruction stands there.
pub open spec fn facts_of(dol: Reader, scanned: Set<u32>, entry_point: u32, addr: u32) -> FactsView {
    FactsView {
        branch_target: if exists|source: u32|
            scanned.contains(source) && #[trigger] branches_to(dol, source, addr) {
            Some(Set::new(|source: u32| scanned.contains(source) && branches_to(dol, source, addr)))
        } else {
            None
        },
        subroutine: addr == entry_point || exists|source: u32|
            scanned.contains(source) && #[trigger] calls(dol, source, addr),
        subroutine_call: if scanned.contains(addr) && branch_at(dol, addr) is Some && branch_at(
            dol,
            addr,
        )->0.link && branch_at(dol, addr)->0.target is Some {
            branch_at(dol, addr)->0.target
        } else {
            None
        },
        basic_block_end: if scanned.contains(addr) && is_block_end(dol, addr) {
            Some(block_end_successors(dol, addr))
        } else {
            None
        },
        parse_error: if scanned.contains(addr) {
            match parsed_at(dol, addr) {
                Ok(_) => None,
                Err(error) => Some(error),
            }
        } else {
            None
        },
        basic_block: None,
    }
}

/// Whether the facts about an address are what a scan of the addresses in
/// `scanned` notes about it.
pub open spec fn found_at(
    db: Map<u32, FactsView>,
    dol: Reader,
    scanned: Set<u32>,
    entry_point: u32,
    addr: u32,
) -> bool {
    &&& view_at(db, addr) =~~= facts_of(dol, scanned, entry_point, addr)
    &&& db.contains_key(addr) <==> facts_of(dol, scanned, entry_point, addr) != FactsView::nothing()
}

/// Whether a database holds what a scan of the addresses in `scanned`
/// notes, and nothing else.
pub open spec fn found(db: Map<u32, FactsView>, dol: Reader, scanned: Set<u32>, entry_point: u32) -> bool {
    forall|addr: u32| #[trigger] found_at(db, dol, scanned, entry_point, addr)
}

/// Whether the scan is done with an address: the executable maps it, the
/// target of a branch there is known, and so is the next address if the
/// instruction falls through and the next address is a 32-bit number.
pub open spec fn followed(dol: Reader, known: Set<u32>, addr: u32) -> bool {
    &&& dol.word_at(addr) is Some
    &&& static_target(parsed_at(dol, addr)) is Some ==> known.contains(
        static_target(parsed_at(dol, addr))->0,
    )
    &&& falls_through(parsed_at(dol, addr)) && addr <= u32::MAX - 4 ==> known.contains(
        (addr + 4) as u32,
    )
}

/// What looking at a word does to the branch targets: the target of a
/// branch gets the address as a source, and nothing else changes.
proof fn lemma_noted_branch_target(
    db: Map<u32, FactsView>,
    addr: u32,
    parsed: Result<DecodedInstruction, ParseError>,
    other: u32,
)
    ensures
        view_at(noted(db, addr, parsed), other).branch_target == (if static_target(parsed) == Some(
            other,
        ) {
            Some(
                match view_at(db, other).branch_target {
                    Some(sources) => sources.insert(addr),
                    None => set![addr],
                },
            )
        } else {
            view_at(db, other).branch_target
        }),
        view_at(noted(db, addr, parsed), other).basic_block == view_at(db, other).basic_block,
{
    reveal(noted);
}

/// What looking at a word does to the subroutines and calls: the target of
/// a call is marked as a subroutine and the call is noted, unless a call was
/// noted there before.
proof fn lemma_noted_calls(
    db: Map<u32, FactsView>,
    addr: u32,
    parsed: Result<DecodedInstruction, ParseError>,
    other: u32,
)
    ensures
        view_at(noted(db, addr, parsed), other).subroutine == (view_at(db, other).subroutine || (
        static_target(parsed) == Some(other) && parsed->Ok_0.branch_descriptor()->0.link)),
        view_at(noted(db, addr, parsed), other).subroutine_call == (if other == addr
            && static_target(parsed) is Some && parsed->Ok_0.branch_descriptor()->0.link && view_at(
            db,
            other,
        ).subroutine_call is None {
            static_target(parsed)
        } else {
            view_at(db, other).subroutine_call
        }),
{
    reveal(noted);
}

/// The successors that a branch that ends a basic block notes.
pub open spec fn noted_successors(addr: u32, info: BranchInfo) -> Set<u32> {
    match info.target {
        Some(target) => if info.conditional() && addr <= u32::MAX - 4 {
            set![target, (addr + 4) as u32]
        } else {
            set![target]
        },
        None => Set::empty(),
    }
}

/// What looking at a word does to the ends of basic blocks and to the
/// parse errors: a branch that does not link ends a basic block and adds its
/// successors, and a word that is no instruction is noted as a parse error,
/// unless one was noted there before.
proof fn lemma_noted_ends(
    db: Map<u32, FactsView>,
    addr: u32,
    parsed: Result<DecodedInstruction, ParseError>,
    other: u32,
)
    ensures
        view_at(noted(db, addr, parsed), other).basic_block_end =~~= (if other == addr
            && parsed is Ok && parsed->Ok_0.branch_descriptor() is Some
            && !parsed->Ok_0.branch_descriptor()->0.link {
            Some(
                (match view_at(db, other).basic_block_end {
                    Some(successors) => successors,
                    None => Set::empty(),
                }).union(noted_successors(addr, parsed->Ok_0.branch_descriptor()->0)),
            )
        } else {
            view_at(db, other).basic_block_end
        }),
        view_at(noted(db, addr, parsed), other).parse_error == (if other == addr && parsed is Err
            && view_at(db, other).parse_error is None {
            Some(parsed->Err_0)
        } else {
            view_at(db, other).parse_error
        }),
{
    reveal(noted);
}

/// Looking at a word adds facts about the address of the word and about the
/// target of a branch there only, and only where it notes something.
proof fn lemma_noted_keys(
    db: Map<u32, FactsView>,
    addr: u32,
    parsed: Result<DecodedInstruction, ParseError>,
    other: u32,
)
    ensures
        noted(db, addr, parsed).contains_key(other) <==> db.contains_key(other) || static_target(
            parsed,
        ) == Some(other) || (other == addr && (parsed is Err || (
        parsed->Ok_0.branch_descriptor() is Some && (static_target(parsed) is Some
            || !parsed->Ok_0.branch_descriptor()->0.link)))),
{
    reveal(noted);
}

/// What a database that holds the findings of a scan holds after one more
/// address was looked at: the findings of the scan with that address.
pub proof fn lemma_noted_found(
    db: Map<u32, FactsView>,
    dol: Reader,
    scanned: Set<u32>,
    entry_point: u32,
    addr: u32,
)
    requires
        found(db, dol, scanned, entry_point),
        !scanned.contains(addr),
    ensures
        found(noted(db, addr, parsed_at(dol, addr)), dol, scanned.insert(addr), entry_point),
{
    let parsed = parsed_at(dol, addr);
    let after = noted(db, addr, parsed);
    let grown = scanned.insert(addr);
    assert forall|other: u32| #[trigger] found_at(after, dol, grown, entry_point, other) by {
        assert(found_at(db, dol, scanned, entry_point, other));
        lemma_found_branch_target(db, dol, scanned, entry_point, addr, other);
        lemma_found_subroutine(db, dol, scanned, entry_point, addr, other);
        lemma_found_rest(db, dol, scanned, entry_point, addr, other);
    }
}

/// The branch targets after one more address was looked at.
proof fn lemma_found_branch_target(
    db: Map<u32, FactsView>,
    dol: Reader,
    scanned: Set<u32>,
    entry_point: u32,
    addr: u32,
    other: u32,
)
    requires
        found_at(db, dol, scanned, entry_point, other),
        !scanned.contains(addr),
    ensures
        view_at(noted(db, addr, parsed_at(dol, addr)), other).branch_target =~~= facts_of(
            dol,
            scanned.insert(addr),
            entry_point,
            other,
        ).branch_target,
        view_at(noted(db, addr, parsed_at(dol, addr)), other).basic_block == facts_of(
            dol,
            scanned.insert(addr),
            entry_point,
            other,
        ).basic_block,
{
    let parsed = parsed_at(dol, addr);
    let grown = scanned.insert(addr);
    lemma_noted_branch_target(db, addr, parsed, other);
    let before = facts_of(dol, scanned, entry_point, other);
    let sources_before = Set::new(
        |source: u32| scanned.contains(source) && branches_to(dol, source, other),
    );
    let sources_now = Set::new(
        |source: u32| grown.contains(source) && branches_to(dol, source, other),
    );
    if branches_to(dol, addr, other) {
        assert(grown.contains(addr) && branches_to(dol, addr, other));
        assert(sources_now =~= sources_before.insert(addr));
        if before.branch_target is None {
            assert(sources_before =~= Set::empty()) by {
                assert forall|source: u32| !sources_before.contains(source) by {
                    if scanned.contains(source) && branches_to(dol, source, other) {
                        assert(before.branch_target is Some);
                    }
                }
            }
            assert(Set::<u32>::empty().insert(addr) =~= set![addr]);
        }
    } else {
        assert(sources_now =~= sources_before);
        if exists|source: u32| grown.contains(source) && #[trigger] branches_to(dol, source, other) {
            let source = choose|source: u32|
                grown.contains(source) && #[trigger] branches_to(dol, source, other);
            assert(scanned.contains(source) && branches_to(dol, source, other));
        }
        if exists|source: u32| scanned.contains(source) && #[trigger] branches_to(dol, source, other) {
            let source = choose|source: u32|
                scanned.contains(source) && #[trigger] branches_to(dol, source, other);
            assert(grown.contains(source) && branches_to(dol, source, other));
        }
    }
}

/// The subroutines and calls after one more address was looked at.
proof fn lemma_found_subroutine(
    db: Map<u32, FactsView>,
    dol: Reader,
    scanned: Set<u32>,
    entry_point: u32,
    addr: u32,
    other: u32,
)
    requires
        found_at(db, dol, scanned, entry_point, other),
        !scanned.contains(addr),
    ensures
        view_at(noted(db, addr, parsed_at(dol, addr)), other).subroutine == facts_of(
            dol,
            scanned.insert(addr),
            entry_point,
            other,
        ).subroutine,
        view_at(noted(db, addr, parsed_at(dol, addr)), other).subroutine_call == facts_of(
            dol,
            scanned.insert(addr),
            entry_point,
            other,
        ).subroutine_call,
{
    let parsed = parsed_at(dol, addr);
    let grown = scanned.insert(addr);
    lemma_noted_calls(db, addr, parsed, other);
    if calls(dol, addr, other) {
        assert(grown.contains(addr) && calls(dol, addr, other));
    } else {
        if exists|source: u32| grown.contains(source) && #[trigger] calls(dol, source, other) {
            let source = choose|source: u32|
                grown.contains(source) && #[trigger] calls(dol, source, other);
            assert(scanned.contains(source) && calls(dol, source, other));
        }
        if exists|source: u32| scanned.contains(source) && #[trigger] calls(dol, source, other) {
            let source = choose|source: u32|
                scanned.contains(source) && #[trigger] calls(dol, source, other);
            assert(grown.contains(source) && calls(dol, source, other));
        }
    }
}

/// The ends of basic blocks, the parse errors and the addresses with facts
/// after one more address was looked at.
proof fn lemma_found_rest(
    db: Map<u32, FactsView>,
    dol: Reader,
    scanned: Set<u32>,
    entry_point: u32,
    addr: u32,
    other: u32,
)
    requires
        found_at(db, dol, scanned, entry_point, other),
        !scanned.contains(addr),
        view_at(noted(db, addr, parsed_at(dol, addr)), other).branch_target =~~= facts_of(
            dol,
            scanned.insert(addr),
            entry_point,
            other,
        ).branch_target,
        view_at(noted(db, addr, parsed_at(dol, addr)), other).basic_block == facts_of(
            dol,
            scanned.insert(addr),
            entry_point,
            other,
        ).basic_block,
        view_at(noted(db, addr, parsed_at(dol, addr)), other).subroutine == facts_of(
            dol,
            scanned.insert(addr),
            entry_point,
            other,
        ).subroutine,
        view_at(noted(db, addr, parsed_at(dol, addr)), other).subroutine_call == facts_of(
            dol,
            scanned.insert(addr),
            entry_point,
            other,
        ).subroutine_call,
    ensures
        found_at(noted(db, addr, parsed_at(dol, addr)), dol, scanned.insert(addr), entry_point, other),
{
    let parsed = parsed_at(dol, addr);
    let after = noted(db, addr, parsed);
    let grown = scanned.insert(addr);
    lemma_noted_ends(db, addr, parsed, other);
    lemma_noted_keys(db, addr, parsed, other);
    lemma_noted_branch_target(db, addr, parsed, other);
    lemma_noted_calls(db, addr, parsed, other);
    let now = facts_of(dol, grown, entry_point, other);
    if other == addr && is_block_end(dol, addr) {
        assert(Set::<u32>::empty().union(noted_successors(addr, branch_at(dol, addr)->0))
            =~= block_end_successors(dol, addr));
    }
    assert(view_at(after, other).basic_block_end =~~= now.basic_block_end);
    assert(view_at(after, other).parse_error == now.parse_error);
    assert(view_at(after, other) =~~= now);
    if static_target(parsed) == Some(other) {
        assert(grown.contains(addr) && branches_to(dol, addr, other));
        assert(now.branch_target is Some);
    }
}

/// A scan that starts from the findings of the closed addresses ends, if
/// it does not come upon unmapped memory, with the findings of the closed
/// addresses.
pub proof fn lemma_scanned_found(
    dol: Reader,
    addr: u32,
    db: Map<u32, FactsView>,
    known: Set<u32>,
    open: Set<u32>,
    entry_point: u32,
)
    requires
        found(db, dol, known.difference(open), entry_point),
    ensures
        ({
            let scan = scanned(dol, addr, db, known, open);
            scan.unmapped is None ==> found(
                scan.db,
                dol,
                scan.known.difference(scan.open),
                entry_point,
            )
        }),
    decreases u32::MAX - addr,
{
    reveal(looked_at);
    if known.contains(addr) && !open.contains(addr) {
    } else {
        let closed = known.difference(open);
        let step = looked_at(dol, addr, db, known.insert(addr), open.remove(addr));
        if dol.word_at(addr) is Some {
            lemma_noted_found(db, dol, closed, entry_point, addr);
            assert(step.0.known.difference(step.0.open) =~= closed.insert(addr));
            if step.1 && addr <= u32::MAX - 4 {
                lemma_scanned_found(
                    dol,
                    (addr + 4) as u32,
                    step.0.db,
                    step.0.known,
                    step.0.open,
                    entry_point,
                );
            }
        }
    }
}

/// Whether the scan is done with every closed address, but for the address
/// at which it stands: with that one it is done as soon as the next address
/// is known.
pub open spec fn followed_but(dol: Reader, known: Set<u32>, open: Set<u32>, pending: Option<u32>) -> bool {
    forall|addr: u32|
        known.contains(addr) && !open.contains(addr) ==> #[trigger] followed(dol, known, addr) || (
        pending == Some(addr) && followed(dol, known.insert((addr + 4) as u32), addr))
}

/// A scan that starts where the scan is done with every closed address, but
/// for the address before the one at which it starts, ends, if it does not
/// come upon unmapped memory, where the scan is done with every closed
/// address.
pub proof fn lemma_scanned_followed(
    dol: Reader,
    addr: u32,
    db: Map<u32, FactsView>,
    known: Set<u32>,
    open: Set<u32>,
    pending: Option<u32>,
)
    requires
        followed_but(dol, known, open, pending),
        pending is Some ==> pending->0 + 4 == addr,
    ensures
        ({
            let scan = scanned(dol, addr, db, known, open);
            scan.unmapped is None ==> followed_but(dol, scan.known, scan.open, None)
        }),
    decreases u32::MAX - addr,
{
    reveal(looked_at);
    if known.contains(addr) && !open.contains(addr) {
        assert forall|other: u32| known.contains(other) && !open.contains(other) implies #[trigger] followed(
            dol,
            known,
            other,
        ) by {
            if !followed(dol, known, other) {
                assert(pending == Some(other));
                assert(known.insert((other + 4) as u32) =~= known);
            }
        }
    } else {
        let step = looked_at(dol, addr, db, known.insert(addr), open.remove(addr));
        if dol.word_at(addr) is Some {
            let goes_on = step.1 && addr <= u32::MAX - 4;
            let next = if goes_on {
                Some(addr)
            } else {
                None::<u32>
            };
            assert forall|other: u32|
                step.0.known.contains(other) && !step.0.open.contains(
                    other,
                ) implies #[trigger] followed(dol, step.0.known, other) || (next == Some(other)
                && followed(dol, step.0.known.insert((other + 4) as u32), other)) by {
                if other == addr {
                } else {
                    assert(known.contains(other) && !open.contains(other));
                    if !followed(dol, known, other) {
                        assert(pending == Some(other));
                        assert(followed(dol, known.insert(addr), other));
                    }
                }
            }
            if goes_on {
                lemma_scanned_followed(
                    dol,
                    (addr + 4) as u32,
                    step.0.db,
                    step.0.known,
                    step.0.open,
                    next,
                );
            }
        }
    }
}

/// A database with nothing but the mark of the entry point holds the
/// findings of a scan of no address.
pub proof fn lemma_found_at_first(dol: Reader, entry_point: u32)
    ensures
        found(with_subroutine(Map::empty(), entry_point), dol, Set::empty(), entry_point),
{
    let db = with_subroutine(Map::<u32, FactsView>::empty(), entry_point);
    assert forall|addr: u32| #[trigger] found_at(db, dol, Set::empty(), entry_point, addr) by {
        assert(view_at(db, addr) =~~= facts_of(dol, Set::empty(), entry_point, addr));
    }
}

/// Whether the scan goes from one address to another: a branch at the
/// first goes to the second, or the instruction at the first falls through
/// to the second.
pub open spec fn steps_to(dol: Reader, from: u32, to: u32) -> bool {
    dol.word_at(from) is Some && (static_target(parsed_at(dol, from)) == Some(to) || (
    falls_through(parsed_at(dol, from)) && from <= u32::MAX - 4 && to == from + 4))
}

/// Whether the scan can go along the addresses, from each to the next.
pub open spec fn is_path(dol: Reader, path: Seq<u32>) -> bool {
    path.len() > 0 && forall|i: int|
        0 <= i < path.len() - 1 ==> steps_to(dol, #[trigger] path[i], path[i + 1])
}

/// Whether the scan can get from the entry point to an address.
pub open spec fn reachable(dol: Reader, entry_point: u32, addr: u32) -> bool {
    exists|path: Seq<u32>| #[trigger] is_path(dol, path) && path[0] == entry_point && path.last() == addr
}

/// What can be reached in one step from what can be reached can be reached.
pub proof fn lemma_reachable_step(dol: Reader, entry_point: u32, from: u32, to: u32)
    requires
        reachable(dol, entry_point, from),
        steps_to(dol, from, to),
    ensures
        reachable(dol, entry_point, to),
{
    let path = choose|path: Seq<u32>|
        #[trigger] is_path(dol, path) && path[0] == entry_point && path.last() == from;
    let longer = path.push(to);
    assert(is_path(dol, longer)) by {
        assert forall|i: int| 0 <= i < longer.len() - 1 implies steps_to(
            dol,
            #[trigger] longer[i],
            longer[i + 1],
        ) by {
            if i < path.len() - 1 {
                assert(steps_to(dol, path[i], path[i + 1]));
            }
        }
    }
    assert(longer[0] == entry_point && longer.last() == to);
}

/// A scan from an address that can be reached, among known addresses that
/// can be reached, gets to know addresses that can be reached only; and
/// where it fails, it does so at an address that can be reached and that
/// the executable does not map.
pub proof fn lemma_scanned_reachable(
    dol: Reader,
    addr: u32,
    db: Map<u32, FactsView>,
    known: Set<u32>,
    open: Set<u32>,
    entry_point: u32,
)
    requires
        forall|other: u32| known.contains(other) ==> #[trigger] reachable(dol, entry_point, other),
        reachable(dol, entry_point, addr),
    ensures
        ({
            let scan = scanned(dol, addr, db, known, open);
            match scan.unmapped {
                None => forall|other: u32|
                    scan.known.contains(other) ==> #[trigger] reachable(dol, entry_point, other),
                Some(at) => reachable(dol, entry_point, at) && dol.word_at(at) is None,
            }
        }),
    decreases u32::MAX - addr,
{
    reveal(looked_at);
    if known.contains(addr) && !open.contains(addr) {
    } else {
        let step = looked_at(dol, addr, db, known.insert(addr), open.remove(addr));
        if dol.word_at(addr) is Some {
            let target = static_target(parsed_at(dol, addr));
            if target is Some {
                lemma_reachable_step(dol, entry_point, addr, target->0);
            }
            if step.1 && addr <= u32::MAX - 4 {
                lemma_reachable_step(dol, entry_point, addr, (addr + 4) as u32);
                lemma_scanned_reachable(
                    dol,
                    (addr + 4) as u32,
                    step.0.db,
                    step.0.known,
                    step.0.open,
                    entry_point,
                );
            }
        }
    }
}

/// Where the entry point is known and the scan is done with every known
/// address, every address that can be reached is known.
pub proof fn lemma_followed_reaches(dol: Reader, entry_point: u32, known: Set<u32>, path: Seq<u32>)
    requires
        known.contains(entry_point),
        forall|addr: u32| #[trigger] known.contains(addr) ==> followed(dol, known, addr),
        is_path(dol, path),
        path[0] == entry_point,
    ensures
        known.contains(path.last()),
    decreases path.len(),
{
    if path.len() > 1 {
        let shorter = path.drop_last();
        assert(is_path(dol, shorter)) by {
            assert forall|i: int| 0 <= i < shorter.len() - 1 implies steps_to(
                dol,
                #[trigger] shorter[i],
                shorter[i + 1],
            ) by {
                assert(steps_to(dol, path[i], path[i + 1]));
            }
        }
        lemma_followed_reaches(dol, entry_point, known, shorter);
        let from = shorter.last();
        assert(from == path[path.len() - 2]);
        assert(steps_to(dol, path[path.len() - 2], path[path.len() - 2 + 1]));
        assert(followed(dol, known, from));
    }
}

/// The entry point can be reached.
pub proof fn lemma_entry_reachable(dol: Reader, entry_point: u32)
    ensures
        reachable(dol, entry_point, entry_point),
{
    let path = seq![entry_point];
    assert(is_path(dol, path));
    assert(path[0] == entry_point && path.last() == entry_point);
}

} // verus!
