//! The discovery pass: a scan of the reachable code that notes down branch
//! targets, subroutines, calls, ends of basic blocks and parse errors.

use vstd::prelude::*;

use crate::discovered::followed;
use crate::discovered::followed_but;
use crate::discovered::found;
use crate::discovered::is_path;
use crate::discovered::lemma_entry_reachable;
use crate::discovered::lemma_followed_reaches;
use crate::discovered::lemma_found_at_first;
use crate::discovered::lemma_scanned_followed;
use crate::discovered::lemma_scanned_found;
use crate::discovered::lemma_scanned_reachable;
use crate::discovered::reachable;
use crate::dol::reader::Reader;
use crate::fact::basic_block_end::BasicBlockEndFact;
use crate::fact::branch_target::BranchTargetFact;
use crate::fact::FactsView;
use crate::fact::parse_error::ParseErrorFact;
use crate::fact::subroutine::SubroutineFact;
use crate::fact::subroutine_call::SubroutineCallFact;
use crate::fact_database::FactDatabase;
use crate::powerpc::instruction::decoded_instruction::DecodedInstruction;
use crate::powerpc::instruction::encoded_instruction::decode;
use crate::powerpc::instruction::encoded_instruction::EncodedInstruction;
use crate::powerpc::instruction::encoded_instruction::ParseError;
use crate::work_set::WorkSet;

verus! {

/// An address that the scan reached and that no section of the executable
/// maps.
#[derive(Clone, Copy, Debug, PartialEq, Eq, Structural)]
pub struct Unmapped(pub u32);

/// The facts about an address in a database, which may be none.
pub open spec fn view_at(db: Map<u32, FactsView>, addr: u32) -> FactsView {
    if db.contains_key(addr) {
        db[addr]
    } else {
        FactsView::nothing()
    }
}

/// The database after a branch at `source` to `target` was noted at the
/// target.
pub open spec fn with_source(db: Map<u32, FactsView>, target: u32, source: u32) -> Map<
    u32,
    FactsView,
> {
    let facts = view_at(db, target);
    db.insert(
        target,
        FactsView {
            branch_target: Some(
                match facts.branch_target {
                    Some(sources) => sources.insert(source),
                    None => set![source],
                },
            ),
            ..facts
        },
    )
}

/// The database after `addr` was marked as a subroutine.
pub open spec fn with_subroutine(db: Map<u32, FactsView>, addr: u32) -> Map<u32, FactsView> {
    db.insert(addr, FactsView { subroutine: true, ..view_at(db, addr) })
}

/// The database after a call of `target` was noted at `addr`, unless a call
/// was noted there before.
pub open spec fn with_call(db: Map<u32, FactsView>, addr: u32, target: u32) -> Map<u32, FactsView> {
    let facts = view_at(db, addr);
    db.insert(
        addr,
        FactsView {
            subroutine_call: match facts.subroutine_call {
                Some(known) => Some(known),
                None => Some(target),
            },
            ..facts
        },
    )
}

/// The database after the end of a basic block was noted at `addr`, with
/// the successors that were noted there before.
pub open spec fn with_block_end(db: Map<u32, FactsView>, addr: u32) -> Map<u32, FactsView> {
    let facts = view_at(db, addr);
    db.insert(
        addr,
        FactsView {
            basic_block_end: Some(
                match facts.basic_block_end {
                    Some(successors) => successors,
                    None => Set::empty(),
                },
            ),
            ..facts
        },
    )
}

/// The database after `successor` was noted as a successor of the basic
/// block that ends at `addr`.
pub open spec fn with_successor(db: Map<u32, FactsView>, addr: u32, successor: u32) -> Map<
    u32,
    FactsView,
> {
    let facts = view_at(db, addr);
    db.insert(
        addr,
        FactsView {
            basic_block_end: Some(
                match facts.basic_block_end {
                    Some(successors) => successors.insert(successor),
                    None => set![successor],
                },
            ),
            ..facts
        },
    )
}

/// The database after a parse error was noted at `addr`, unless one was
/// noted there before.
pub open spec fn with_parse_error(db: Map<u32, FactsView>, addr: u32, error: ParseError) -> Map<
    u32,
    FactsView,
> {
    let facts = view_at(db, addr);
    db.insert(
        addr,
        FactsView {
            parse_error: match facts.parse_error {
                Some(known) => Some(known),
                None => Some(error),
            },
            ..facts
        },
    )
}

/// The address to which the instruction at `addr` branches, if it is a
/// branch with a static target.
pub open spec fn static_target(parsed: Result<DecodedInstruction, ParseError>) -> Option<u32> {
    match parsed {
        Ok(instruction) => match instruction.branch_descriptor() {
            Some(info) => info.target,
            None => None,
        },
        Err(_) => None,
    }
}

/// Whether the scan goes on behind the instruction: it was decoded, and it
/// is no branch that diverges.
pub open spec fn falls_through(parsed: Result<DecodedInstruction, ParseError>) -> bool {
    match parsed {
        Ok(instruction) => match instruction.branch_descriptor() {
            Some(info) => !info.divergent(),
            None => true,
        },
        Err(_) => false,
    }
}

/// The database after the word at `addr` was looked at.
///
/// - A word that is no instruction is noted as a parse error.
/// - A branch with a static target is noted at its target as a source. If
///   it links, it is a call: the call is noted at `addr` and the target is
///   marked as a subroutine. If it does not link, it ends a basic block with
///   the target as a successor, and with the next instruction as another if
///   it is conditional and the next address is a 32-bit number.
/// - A branch without a static target that does not link is taken for a
///   return: it ends a basic block without a successor.
#[verifier::opaque]
pub open spec fn noted(
    db: Map<u32, FactsView>,
    addr: u32,
    parsed: Result<DecodedInstruction, ParseError>,
) -> Map<u32, FactsView> {
    match parsed {
        Err(error) => with_parse_error(db, addr, error),
        Ok(instruction) => match instruction.branch_descriptor() {
            None => db,
            Some(info) => match info.target {
                Some(target) => {
                    let db = with_source(db, target, addr);
                    if info.link {
                        with_subroutine(with_call(db, addr, target), target)
                    } else {
                        let db = with_successor(db, addr, target);
                        if info.conditional() && addr <= u32::MAX - 4 {
                            with_successor(db, addr, (addr + 4) as u32)
                        } else {
                            db
                        }
                    }
                },
                None => if !info.link {
                    with_block_end(db, addr)
                } else {
                    db
                },
            },
        },
    }
}

/// What a scan leaves behind.
#[verifier::ext_equal]
pub ghost struct Scan {
    /// The database.
    pub db: Map<u32, FactsView>,
    /// The addresses that are open or closed.
    pub known: Set<u32>,
    /// The addresses that are open.
    pub open: Set<u32>,
    /// The address at which the scan came upon memory that is not mapped.
    pub unmapped: Option<u32>,
}

/// What looking at the word at `addr` leaves behind, and whether the scan
/// goes on with the next address.
///
/// If no section maps the address, the scan ends and says so. Else what the
/// word says is noted and the target of a branch is opened; the scan goes
/// on if the instruction falls through and the next address is a 32-bit
/// number.
#[verifier::opaque]
pub open spec fn looked_at(
    dol: Reader,
    addr: u32,
    db: Map<u32, FactsView>,
    known: Set<u32>,
    open: Set<u32>,
) -> (Scan, bool) {
    match dol.word_at(addr) {
        None => (Scan { db, known, open, unmapped: Some(addr) }, false),
        Some(word) => {
            let parsed = decode(word, addr);
            let target = static_target(parsed);
            (
                Scan {
                    db: noted(db, addr, parsed),
                    known: if target is Some {
                        known.insert(target->0)
                    } else {
                        known
                    },
                    open: if target is Some && !known.contains(target->0) {
                        open.insert(target->0)
                    } else {
                        open
                    },
                    unmapped: None,
                },
                falls_through(parsed) && addr <= u32::MAX - 4,
            )
        },
    }
}

/// What a scan from `addr` on leaves behind.
///
/// The scan ends at an address that is closed. Else it closes the address,
/// looks at the word there, and goes on with the next address or ends.
pub open spec fn scanned(
    dol: Reader,
    addr: u32,
    db: Map<u32, FactsView>,
    known: Set<u32>,
    open: Set<u32>,
) -> Scan
    decreases u32::MAX - addr,
{
    if known.contains(addr) && !open.contains(addr) {
        Scan { db, known, open, unmapped: None }
    } else {
        let step = looked_at(dol, addr, db, known.insert(addr), open.remove(addr));
        if step.1 && addr <= u32::MAX - 4 {
            scanned(dol, (addr + 4) as u32, step.0.db, step.0.known, step.0.open)
        } else {
            step.0
        }
    }
}

/// Notes a branch at `source` to `target` at the target.
fn note_source(db: &mut FactDatabase, target: u32, source: u32)
    requires
        old(db).wf(),
    ensures
        final(db).wf(),
        final(db)@ == with_source(old(db)@, target, source),
{
    db.fact_or_default::<BranchTargetFact>(target).record_source(source);
    assert(db@ =~~= with_source(old(db)@, target, source));
}

/// Marks `addr` as a subroutine.
pub fn note_subroutine(db: &mut FactDatabase, addr: u32)
    requires
        old(db).wf(),
    ensures
        final(db).wf(),
        final(db)@ == with_subroutine(old(db)@, addr),
{
    db.insert_fact_with(addr, || -> (fact: SubroutineFact) { SubroutineFact });
    assert(db@ =~~= with_subroutine(old(db)@, addr));
}

/// Notes a call of `target` at `addr`.
fn note_call(db: &mut FactDatabase, addr: u32, target: u32)
    requires
        old(db).wf(),
    ensures
        final(db).wf(),
        final(db)@ == with_call(old(db)@, addr, target),
{
    let make = || -> (fact: SubroutineCallFact)
        ensures
            fact.callee() == target,
        {
            SubroutineCallFact::new(target)
        };
    db.insert_fact_with(addr, make);
    assert(db@ =~~= with_call(old(db)@, addr, target));
}

/// Notes the end of a basic block at `addr`.
fn note_block_end(db: &mut FactDatabase, addr: u32)
    requires
        old(db).wf(),
    ensures
        final(db).wf(),
        final(db)@ == with_block_end(old(db)@, addr),
{
    let _ = db.fact_or_default::<BasicBlockEndFact>(addr);
    assert(db@ =~~= with_block_end(old(db)@, addr));
}

/// Notes a successor of the basic block that ends at `addr`.
fn note_successor(db: &mut FactDatabase, addr: u32, successor: u32)
    requires
        old(db).wf(),
    ensures
        final(db).wf(),
        final(db)@ == with_successor(old(db)@, addr, successor),
{
    db.fact_or_default::<BasicBlockEndFact>(addr).record_successor(successor);
    assert(db@ =~~= with_successor(old(db)@, addr, successor));
}

/// Notes a parse error at `addr`.
fn note_parse_error(db: &mut FactDatabase, addr: u32, error: ParseError)
    requires
        old(db).wf(),
    ensures
        final(db).wf(),
        final(db)@ == with_parse_error(old(db)@, addr, error),
{
    let make = || -> (fact: ParseErrorFact)
        ensures
            fact.error() == error,
        {
            ParseErrorFact::new(error)
        };
    db.insert_fact_with(addr, make);
    assert(db@ =~~= with_parse_error(old(db)@, addr, error));
}


/// A scan closes the address at which it starts, opens no closed address
/// again and forgets none.
pub proof fn lemma_scanned(
    dol: Reader,
    addr: u32,
    db: Map<u32, FactsView>,
    known: Set<u32>,
    open: Set<u32>,
)
    ensures
        known.subset_of(scanned(dol, addr, db, known, open).known),
        known.difference(open).subset_of(
            scanned(dol, addr, db, known, open).known.difference(
                scanned(dol, addr, db, known, open).open,
            ),
        ),
        scanned(dol, addr, db, known, open).known.contains(addr),
        !scanned(dol, addr, db, known, open).open.contains(addr),
    decreases u32::MAX - addr,
{
    reveal(looked_at);
    if known.contains(addr) && !open.contains(addr) {
    } else {
        let step = looked_at(dol, addr, db, known.insert(addr), open.remove(addr));
        assert(step.0.known.contains(addr) && !step.0.open.contains(addr));
        assert(known.subset_of(step.0.known));
        assert(known.difference(open).subset_of(step.0.known.difference(step.0.open)));
        if step.1 && addr <= u32::MAX - 4 {
            lemma_scanned(dol, (addr + 4) as u32, step.0.db, step.0.known, step.0.open);
            let last = scanned(dol, (addr + 4) as u32, step.0.db, step.0.known, step.0.open);
            assert(step.0.known.difference(step.0.open).contains(addr));
            assert(last.known.difference(last.open).contains(addr));
        }
    }
}

/// Whether every fact of `before` is a fact of `after`: no fact is taken
/// back, the sources of a branch target and the successors of the end of a
/// basic block are only added to, and what a call, a parse error or a basic
/// block says stays as it is.
pub open spec fn kept(before: Map<u32, FactsView>, after: Map<u32, FactsView>) -> bool {
    forall|addr: u32| #[trigger]
        before.contains_key(addr) ==> after.contains_key(addr) && kept_at(
            before[addr],
            after[addr],
        )
}

/// Whether every fact about an address is still there.
pub open spec fn kept_at(before: FactsView, after: FactsView) -> bool {
    &&& before.branch_target is Some ==> after.branch_target is Some
        && before.branch_target->0.subset_of(after.branch_target->0)
    &&& before.subroutine ==> after.subroutine
    &&& before.subroutine_call is Some ==> after.subroutine_call == before.subroutine_call
    &&& before.basic_block_end is Some ==> after.basic_block_end is Some
        && before.basic_block_end->0.subset_of(after.basic_block_end->0)
    &&& before.parse_error is Some ==> after.parse_error == before.parse_error
    &&& before.basic_block == after.basic_block
}

/// Facts that are kept twice over are kept.
pub proof fn lemma_kept_twice(a: Map<u32, FactsView>, b: Map<u32, FactsView>, c: Map<u32, FactsView>)
    requires
        kept(a, b),
        kept(b, c),
    ensures
        kept(a, c),
{
    assert forall|addr: u32| #[trigger] a.contains_key(addr) implies c.contains_key(addr)
        && kept_at(a[addr], c[addr]) by {
        assert(b.contains_key(addr));
        assert(kept_at(a[addr], b[addr]));
        assert(kept_at(b[addr], c[addr]));
    }
}

/// Looking at a word takes no fact back.
pub proof fn lemma_noted_keeps(
    db: Map<u32, FactsView>,
    addr: u32,
    parsed: Result<DecodedInstruction, ParseError>,
)
    ensures
        kept(db, noted(db, addr, parsed)),
{
    reveal(noted);
}

/// A scan takes no fact back.
pub proof fn lemma_scanned_keeps(
    dol: Reader,
    addr: u32,
    db: Map<u32, FactsView>,
    known: Set<u32>,
    open: Set<u32>,
)
    ensures
        kept(db, scanned(dol, addr, db, known, open).db),
    decreases u32::MAX - addr,
{
    reveal(looked_at);
    if known.contains(addr) && !open.contains(addr) {
    } else {
        let step = looked_at(dol, addr, db, known.insert(addr), open.remove(addr));
        match dol.word_at(addr) {
            None => {},
            Some(word) => {
                lemma_noted_keeps(db, addr, decode(word, addr));
            },
        }
        if step.1 && addr <= u32::MAX - 4 {
            lemma_scanned_keeps(dol, (addr + 4) as u32, step.0.db, step.0.known, step.0.open);
            lemma_kept_twice(
                db,
                step.0.db,
                scanned(dol, (addr + 4) as u32, step.0.db, step.0.known, step.0.open).db,
            );
        }
    }
}

/// Notes what the word at `addr` says.
fn note(db: &mut FactDatabase, addr: u32, parsed: &Result<DecodedInstruction, ParseError>)
    requires
        old(db).wf(),
    ensures
        final(db).wf(),
        final(db)@ == noted(old(db)@, addr, *parsed),
{
    proof {
        reveal(noted);
    }
    let instruction = match parsed {
        Ok(instruction) => instruction,
        Err(e) => {
            // Parse error. Record the error and abort scanning.
            note_parse_error(db, addr, *e);
            return ;
        },
    };
    // Handle branch instructions.
    if let Some(branch_info) = instruction.branch_info() {
        if let Some(target) = branch_info.target {
            // This branch has a static target. It's either a subroutine call or a local branch.
            // Record the branch target.
            note_source(db, target, addr);
            if branch_info.link {
                // This is a subroutine call.
                note_call(db, addr, target);
                note_subroutine(db, target);
            } else {
                // This is a local branch, which marks the end of a basic block and links to one
                // or two successors.
                note_successor(db, addr, target);
                if branch_info.is_conditional() && addr <= u32::MAX - 4 {
                    note_successor(db, addr, addr + 4);
                }
            }
        } else if !branch_info.link {
            // This branch has a dynamic target and it's not a subroutine call. Assume it's a
            // return. Mark the end of a basic block with no successors.
            note_block_end(db, addr);
        }
    }
}

/// Looks at the word at an address that was closed just now, and says
/// whether the scan goes on with the next address.
fn look_at(dol: Reader, addr: u32, db: &mut FactDatabase, addrs_to_scan: &mut WorkSet<u32>) -> (r:
    Result<bool, Unmapped>)
    requires
        old(db).wf(),
        old(addrs_to_scan).wf(),
    ensures
        final(db).wf(),
        final(addrs_to_scan).wf(),
        ({
            let step = looked_at(
                dol,
                addr,
                old(db)@,
                old(addrs_to_scan).known(),
                old(addrs_to_scan).open(),
            );
            &&& final(db)@ == step.0.db
            &&& final(addrs_to_scan).known() == step.0.known
            &&& final(addrs_to_scan).open() == step.0.open
            &&& r == match step.0.unmapped {
                Some(at) => Err::<bool, Unmapped>(Unmapped(at)),
                None => Ok(step.1),
            }
            &&& step.0.unmapped is Some ==> !step.1
        }),
        r == Ok::<bool, Unmapped>(true) ==> addr <= u32::MAX - 4,
{
    proof {
        reveal(looked_at);
    }
    // Fetch and parse the instruction.
    let data = match dol.try_read(addr) {
        Some(data) => data,
        None => {
            return Err(Unmapped(addr));
        },
    };
    let parsed = EncodedInstruction(data).parse(addr);
    note(db, addr, &parsed);
    let instruction = match parsed {
        Ok(instruction) => instruction,
        Err(_) => {
            return Ok(false);
        },
    };
    match instruction.branch_info() {
        Some(branch_info) => {
            if let Some(target) = branch_info.target {
                proof {
                    assert(addrs_to_scan.known().insert(target) =~= addrs_to_scan.known().insert(
                        target,
                    ));
                }
                addrs_to_scan.insert(target);
            }
            Ok(!branch_info.diverges() && addr <= u32::MAX - 4)
        },
        None => Ok(addr <= u32::MAX - 4),
    }
}

/// Scans instructions and records facts until the first diverging branch or closed address is
/// encountered.
///
/// Closes addresses in `addrs_to_scan` as it goes. Inserts branch targets (both local branches and
/// subroutine calls) into `addrs_to_scan`.
pub fn scan_and_close_addrs(
    dol: Reader,
    addr: u32,
    db: &mut FactDatabase,
    addrs_to_scan: &mut WorkSet<u32>,
) -> (r: Result<(), Unmapped>)
    requires
        old(db).wf(),
        old(addrs_to_scan).wf(),
    ensures
        final(db).wf(),
        final(addrs_to_scan).wf(),
        ({
            let scan = scanned(
                dol,
                addr,
                old(db)@,
                old(addrs_to_scan).known(),
                old(addrs_to_scan).open(),
            );
            &&& final(db)@ == scan.db
            &&& final(addrs_to_scan).known() == scan.known
            &&& final(addrs_to_scan).open() == scan.open
            &&& r == match scan.unmapped {
                Some(at) => Err::<(), Unmapped>(Unmapped(at)),
                None => Ok(()),
            }
        }),
{
    let mut cursor = addr;
    loop
        invariant
            db.wf(),
            addrs_to_scan.wf(),
            scanned(dol, addr, old(db)@, old(addrs_to_scan).known(), old(addrs_to_scan).open())
                == scanned(dol, cursor, db@, addrs_to_scan.known(), addrs_to_scan.open()),
        decreases u32::MAX - cursor,
    {
        let ghost db0 = db@;
        let ghost known0 = addrs_to_scan.known();
        let ghost open0 = addrs_to_scan.open();
        let ghost here = scanned(dol, cursor, db0, known0, open0);
        if !addrs_to_scan.close(cursor) {
            proof {
                assert(addrs_to_scan.known() =~= known0);
                assert(addrs_to_scan.open() =~= open0);
                assert(here == (Scan { db: db0, known: known0, open: open0, unmapped: None }));
            }
            return Ok(());
        }
        let ghost step = looked_at(dol, cursor, db0, known0.insert(cursor), open0.remove(cursor));
        proof {
            assert(!(known0.contains(cursor) && !open0.contains(cursor)));
            assert(here == if step.1 && cursor <= u32::MAX - 4 {
                scanned(dol, (cursor + 4) as u32, step.0.db, step.0.known, step.0.open)
            } else {
                step.0
            });
        }
        match look_at(dol, cursor, db, addrs_to_scan) {
            Ok(true) => {},
            Ok(false) => {
                return Ok(());
            },
            Err(unmapped) => {
                return Err(unmapped);
            },
        }
        cursor += 4;
    }
}

/// Discovers the code that can be reached from an entry point: marks the
/// entry point as a subroutine and scans from every address that a scan
/// opens, until none is open. Hands back the addresses that were scanned.
pub fn discover(dol: Reader, entry_point: u32, db: &mut FactDatabase) -> (r: Result<
    WorkSet<u32>,
    Unmapped,
>)
    requires
        old(db).wf(),
    ensures
        final(db).wf(),
        kept(old(db)@, final(db)@),
        match r {
            Ok(scanned) => {
                &&& scanned.wf()
                &&& scanned.open() == Set::<u32>::empty()
                &&& scanned.known().contains(entry_point)
                &&& final(db)@.contains_key(entry_point) && final(db)@[entry_point].subroutine
                &&& forall|addr: u32| #[trigger]
                    scanned.known().contains(addr) ==> followed(dol, scanned.known(), addr)
                &&& forall|addr: u32|
                    scanned.known().contains(addr) <==> #[trigger] reachable(dol, entry_point, addr)
                &&& old(db)@ == Map::<u32, FactsView>::empty() ==> found(
                    final(db)@,
                    dol,
                    scanned.known(),
                    entry_point,
                )
            },
            Err(unmapped) => reachable(dol, entry_point, unmapped.0) && dol.word_at(unmapped.0)
                is None,
        },
{
    // Mark the entry point.
    note_subroutine(db, entry_point);
    let ghost marked = db@;
    let mut addrs_to_scan: WorkSet<u32> = WorkSet::new();
    addrs_to_scan.insert(entry_point);
    proof {
        if old(db)@ == Map::<u32, FactsView>::empty() {
            lemma_found_at_first(dol, entry_point);
            assert(addrs_to_scan.closed() =~= Set::<u32>::empty());
        }
        assert(followed_but(dol, addrs_to_scan.known(), addrs_to_scan.open(), None));
        lemma_entry_reachable(dol, entry_point);
    }
    loop
        invariant
            db.wf(),
            addrs_to_scan.wf(),
            addrs_to_scan.known().contains(entry_point),
            forall|addr: u32|
                addrs_to_scan.known().contains(addr) ==> #[trigger] reachable(dol, entry_point, addr),
            marked == with_subroutine(old(db)@, entry_point),
            kept(marked, db@),
            followed_but(dol, addrs_to_scan.known(), addrs_to_scan.open(), None),
            old(db)@ == Map::<u32, FactsView>::empty() ==> found(
                db@,
                dol,
                addrs_to_scan.closed(),
                entry_point,
            ),
        decreases 0x1_0000_0000 - addrs_to_scan.closed().len(),
    {
        let addr = match addrs_to_scan.peek() {
            Some(addr) => *addr,
            None => {
                proof {
                    assert(marked.contains_key(entry_point));
                    lemma_kept_twice(old(db)@, marked, db@);
                    assert(addrs_to_scan.closed() =~= addrs_to_scan.known());
                    assert forall|addr: u32| #[trigger]
                        reachable(dol, entry_point, addr) implies addrs_to_scan.known().contains(
                        addr,
                    ) by {
                        let path = choose|path: Seq<u32>|
                            #[trigger] is_path(dol, path) && path[0] == entry_point && path.last()
                                == addr;
                        lemma_followed_reaches(dol, entry_point, addrs_to_scan.known(), path);
                    }
                }
                return Ok(addrs_to_scan);
            },
        };
        let ghost before = addrs_to_scan.closed();
        let ghost db_before = db@;
        proof {
            addrs_to_scan.lemma_wf();
            lemma_scanned(dol, addr, db@, addrs_to_scan.known(), addrs_to_scan.open());
            lemma_scanned_keeps(dol, addr, db@, addrs_to_scan.known(), addrs_to_scan.open());
            lemma_scanned_followed(
                dol,
                addr,
                db@,
                addrs_to_scan.known(),
                addrs_to_scan.open(),
                None,
            );
            lemma_scanned_reachable(
                dol,
                addr,
                db@,
                addrs_to_scan.known(),
                addrs_to_scan.open(),
                entry_point,
            );
            if old(db)@ == Map::<u32, FactsView>::empty() {
                lemma_scanned_found(
                    dol,
                    addr,
                    db@,
                    addrs_to_scan.known(),
                    addrs_to_scan.open(),
                    entry_point,
                );
            }
        }
        let result = scan_and_close_addrs(dol, addr, db, &mut addrs_to_scan);
        proof {
            lemma_kept_twice(marked, db_before, db@);
        }
        match result {
            Ok(()) => {},
            Err(unmapped) => {
                proof {
                    lemma_kept_twice(old(db)@, marked, db@);
                }
                return Err(unmapped);
            },
        }
        proof {
            addrs_to_scan.lemma_wf();
            crate::work_set::lemma_grown(before, addrs_to_scan.closed(), addr);
            crate::work_set::lemma_address_set_bound(addrs_to_scan.closed());
        }
    }
}

} // verus!
