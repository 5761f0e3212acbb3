//! The basic-block builder: from the ends of basic blocks and the branch
//! targets that the discovery pass noted to basic blocks with their
//! successors and predecessors.

use std::collections::HashMap;
use vstd::prelude::*;

use crate::address_set::ascending;
use crate::fact::basic_block::BasicBlockFactBuilder;
use crate::fact::basic_block::block_last;
use crate::fact::basic_block::block_successors;
use crate::fact::basic_block::facts_about;
use crate::fact::basic_block::lemma_block_extent;
use crate::fact::BlockView;
use crate::fact::FactsView;
use crate::fact_database::FactDatabase;
use crate::powerpc_symbolic::Write;
use crate::work_set::WorkSet;

verus! {

/// The start of a basic block that has no end in the 32-bit address space.
#[derive(Clone, Copy, Debug, PartialEq, Eq, Structural)]
pub struct Unterminated(pub u32);

/// A basic block as it is while the blocks are built.
pub ghost struct Sketch {
    /// The address at which the block starts.
    pub addr: u32,
    /// The address behind the last instruction of the block.
    pub end: u32,
    /// The blocks to which control goes on, in ascending order.
    pub successors: Seq<u32>,
    /// The blocks from which control comes here, as far as they are known.
    pub predecessors: Set<u32>,
}

/// The blocks of a list of builders.
pub open spec fn sketches(blocks: Seq<(u32, BasicBlockFactBuilder)>) -> Seq<Sketch> {
    Seq::new(
        blocks.len(),
        |i: int|
            Sketch {
                addr: blocks[i].0,
                end: blocks[i].1.end(),
                successors: blocks[i].1.succs(),
                predecessors: blocks[i].1.preds(),
            },
    )
}

/// Whether `places` says of each block where it stands in the list, and of
/// no other address.
pub open spec fn placed(blocks: Seq<Sketch>, places: Map<u32, usize>) -> bool {
    &&& forall|i: int|
        0 <= i < blocks.len() ==> places.contains_key((#[trigger] blocks[i]).addr)
            && places[blocks[i].addr] == i
    &&& forall|addr: u32| #[trigger]
        places.contains_key(addr) ==> places[addr] < blocks.len() && blocks[places[addr] as int].addr
            == addr
}

/// Whether each block is cut out of the code as the facts of the database
/// say: it ends with the first instruction that ends a basic block, and its
/// successors are those of that instruction.
pub open spec fn cut(db: Map<u32, FactsView>, blocks: Seq<Sketch>) -> bool {
    forall|i: int|
        0 <= i < blocks.len() ==> {
            &&& block_last(db, (#[trigger] blocks[i]).addr) is Some
            &&& blocks[i].end == block_last(db, blocks[i].addr)->0 + 4
            &&& ascending(blocks[i].successors)
            &&& blocks[i].successors.to_set() == block_successors(db, (blocks[i].end - 4) as u32)
        }
}

/// Whether every successor of a block is a block of the list.
pub open spec fn closed_under_successors(blocks: Seq<Sketch>, places: Map<u32, usize>) -> bool {
    forall|i: int, k: int|
        0 <= i < blocks.len() && 0 <= k < blocks[i].successors.len() ==> places.contains_key(
            #[trigger] blocks[i].successors[k],
        )
}

/// Whether `source` is one of the first `count` blocks and has `target` as
/// a successor.
pub open spec fn goes_to(blocks: Seq<Sketch>, count: int, source: u32, target: u32) -> bool {
    exists|i: int|
        0 <= i < count && i < blocks.len() && (#[trigger] blocks[i]).addr == source
            && blocks[i].successors.contains(target)
}

/// Whether the predecessors of each block are the blocks among the first
/// `count` that have it as a successor.
pub open spec fn linked(blocks: Seq<Sketch>, count: int) -> bool {
    forall|j: int, source: u32|
        0 <= j < blocks.len() ==> ((#[trigger] blocks[j]).predecessors.contains(source)
            <==> #[trigger] goes_to(blocks, count, source, blocks[j].addr))
}

/// Whether control can go from the basic block that starts at `from` to the
/// basic block that starts at `to`: the first has an end, and the second is
/// one of its successors.
pub open spec fn flows_to(db: Map<u32, FactsView>, from: u32, to: u32) -> bool {
    block_last(db, from) is Some && block_successors(db, block_last(db, from)->0).contains(to)
}

/// Whether control can go along the starts of basic blocks, from each to
/// the next.
pub open spec fn is_flow(db: Map<u32, FactsView>, path: Seq<u32>) -> bool {
    path.len() > 0 && forall|i: int|
        0 <= i < path.len() - 1 ==> flows_to(db, #[trigger] path[i], path[i + 1])
}

/// Whether control can get from the basic block at the entry point to a
/// basic block that starts at an address.
pub open spec fn flows_from_entry(db: Map<u32, FactsView>, entry_point: u32, addr: u32) -> bool {
    exists|path: Seq<u32>| #[trigger] is_flow(db, path) && path[0] == entry_point && path.last() == addr
}

/// Where control can get in one step from where it can get, it can get.
pub proof fn lemma_flow_step(db: Map<u32, FactsView>, entry_point: u32, from: u32, to: u32)
    requires
        flows_from_entry(db, entry_point, from),
        flows_to(db, from, to),
    ensures
        flows_from_entry(db, entry_point, to),
{
    let path = choose|path: Seq<u32>|
        #[trigger] is_flow(db, path) && path[0] == entry_point && path.last() == from;
    let longer = path.push(to);
    assert(is_flow(db, longer)) by {
        assert forall|i: int| 0 <= i < longer.len() - 1 implies flows_to(
            db,
            #[trigger] longer[i],
            longer[i + 1],
        ) by {
            if i < path.len() - 1 {
                assert(flows_to(db, path[i], path[i + 1]));
            }
        }
    }
    assert(longer[0] == entry_point && longer.last() == to);
}

/// Where the entry point is among the blocks and every successor of a block
/// is among them, every block to which control can get is among them.
pub proof fn lemma_flow_stays(
    db: Map<u32, FactsView>,
    entry_point: u32,
    blocks: Seq<Sketch>,
    places: Map<u32, usize>,
    path: Seq<u32>,
)
    requires
        placed(blocks, places),
        cut(db, blocks),
        closed_under_successors(blocks, places),
        places.contains_key(entry_point),
        is_flow(db, path),
        path[0] == entry_point,
    ensures
        places.contains_key(path.last()),
    decreases path.len(),
{
    if path.len() > 1 {
        let shorter = path.drop_last();
        assert(is_flow(db, shorter)) by {
            assert forall|i: int| 0 <= i < shorter.len() - 1 implies flows_to(
                db,
                #[trigger] shorter[i],
                shorter[i + 1],
            ) by {
                assert(flows_to(db, path[i], path[i + 1]));
            }
        }
        lemma_flow_stays(db, entry_point, blocks, places, shorter);
        let from = shorter.last();
        assert(from == path[path.len() - 2]);
        assert(flows_to(db, path[path.len() - 2], path[path.len() - 2 + 1]));
        let i = places[from] as int;
        assert(blocks[i].addr == from);
        assert(blocks[i].successors.to_set().contains(path.last()));
        let k = choose|k: int|
            0 <= k < blocks[i].successors.len() && blocks[i].successors[k] == path.last();
        assert(places.contains_key(blocks[i].successors[k]));
    }
}

/// Finds the basic blocks that can be reached from the entry point.
fn find_blocks(db: &FactDatabase, entry_point: u32) -> (r: Result<
    (Vec<(u32, BasicBlockFactBuilder)>, HashMap<u32, usize>),
    Unterminated,
>)
    ensures
        match r {
            Ok(found) => {
                &&& placed(sketches(found.0@), found.1@)
                &&& cut(db@, sketches(found.0@))
                &&& closed_under_successors(sketches(found.0@), found.1@)
                &&& found.1@.contains_key(entry_point)
                &&& forall|addr: u32|
                    found.1@.contains_key(addr) <==> #[trigger] flows_from_entry(
                        db@,
                        entry_point,
                        addr,
                    )
                &&& forall|i: int|
                    0 <= i < found.0@.len() ==> (#[trigger] sketches(found.0@)[i]).predecessors
                        == Set::<u32>::empty()
            },
            Err(start) => flows_from_entry(db@, entry_point, start.0) && block_last(db@, start.0)
                is None,
        },
{
    broadcast use vstd::std_specs::hash::group_hash_axioms;

    let mut blocks: Vec<(u32, BasicBlockFactBuilder)> = Vec::new();
    let mut places: HashMap<u32, usize> = HashMap::new();
    // Scan all locally connected basic blocks.
    let mut addrs_to_scan: WorkSet<u32> = WorkSet::new();
    addrs_to_scan.insert(entry_point);
    proof {
        let path = seq![entry_point];
        assert(is_flow(db@, path));
        assert(path[0] == entry_point && path.last() == entry_point);
    }
    loop
        invariant
            addrs_to_scan.wf(),
            addrs_to_scan.known().contains(entry_point),
            forall|addr: u32|
                addrs_to_scan.known().contains(addr) ==> #[trigger] flows_from_entry(
                    db@,
                    entry_point,
                    addr,
                ),
            placed(sketches(blocks@), places@),
            cut(db@, sketches(blocks@)),
            places@.dom() =~= addrs_to_scan.closed(),
            forall|i: int, k: int|
                0 <= i < blocks@.len() && 0 <= k < sketches(blocks@)[i].successors.len()
                    ==> addrs_to_scan.known().contains(
                    #[trigger] sketches(blocks@)[i].successors[k],
                ),
            forall|i: int|
                0 <= i < blocks@.len() ==> (#[trigger] sketches(blocks@)[i]).predecessors
                    == Set::<u32>::empty(),
        ensures
            addrs_to_scan.wf(),
            addrs_to_scan.open() == Set::<u32>::empty(),
            addrs_to_scan.known().contains(entry_point),
            forall|addr: u32|
                addrs_to_scan.known().contains(addr) ==> #[trigger] flows_from_entry(
                    db@,
                    entry_point,
                    addr,
                ),
            placed(sketches(blocks@), places@),
            cut(db@, sketches(blocks@)),
            places@.dom() =~= addrs_to_scan.closed(),
            forall|i: int, k: int|
                0 <= i < blocks@.len() && 0 <= k < sketches(blocks@)[i].successors.len()
                    ==> addrs_to_scan.known().contains(
                    #[trigger] sketches(blocks@)[i].successors[k],
                ),
            forall|i: int|
                0 <= i < blocks@.len() ==> (#[trigger] sketches(blocks@)[i]).predecessors
                    == Set::<u32>::empty(),
        decreases 0x1_0000_0000 - addrs_to_scan.closed().len(),
    {
        let ghost closed_before = addrs_to_scan.closed();
        let ghost before = sketches(blocks@);
        proof {
            addrs_to_scan.lemma_wf();
        }
        let addr = match addrs_to_scan.pop() {
            Some(addr) => addr,
            None => {
                break ;
            },
        };
        let builder = match BasicBlockFactBuilder::try_new(db, addr) {
            Some(builder) => builder,
            None => {
                return Err(Unterminated(addr));
            },
        };
        let ghost successors = builder.succs();
        assert(addrs_to_scan.closed() =~= closed_before.insert(addr));
        proof {
            assert forall|other: u32| successors.to_set().contains(other) implies flows_from_entry(
                db@,
                entry_point,
                other,
            ) by {
                lemma_flow_step(db@, entry_point, addr, other);
            }
        }
        addrs_to_scan.extend(builder.successors());
        places.insert(addr, blocks.len());
        blocks.push((addr, builder));
        proof {
            let after = sketches(blocks@);
            addrs_to_scan.lemma_wf();
            assert(addrs_to_scan.closed() =~= closed_before.insert(addr));
            crate::work_set::lemma_grown(closed_before, addrs_to_scan.closed(), addr);
            crate::work_set::lemma_address_set_bound(addrs_to_scan.closed());
            assert forall|i: int| 0 <= i < before.len() implies after[i] == before[i] by {}
            assert forall|i: int, k: int|
                0 <= i < blocks@.len() && 0 <= k < after[i].successors.len()
                    implies addrs_to_scan.known().contains(#[trigger] after[i].successors[k]) by {
                if i < before.len() {
                    assert(before[i].successors[k] == after[i].successors[k]);
                } else {
                    assert(successors.to_set().contains(successors[k]));
                }
            }
            assert forall|i: int| 0 <= i < after.len() implies places@.contains_key(
                (#[trigger] after[i]).addr,
            ) && places@[after[i].addr] == i by {
                if i < before.len() {
                    assert(before[i].addr != addr) by {
                        assert(closed_before.contains(before[i].addr));
                    }
                }
            }
            assert forall|other: u32| #[trigger] places@.contains_key(other) implies places@[other]
                < after.len() && after[places@[other] as int].addr == other by {
                if other != addr {
                    assert(before[places@[other] as int].addr == other);
                }
            }
        }
    }
    proof {
        addrs_to_scan.lemma_wf();
        assert(addrs_to_scan.closed() =~= addrs_to_scan.known());
        assert forall|addr: u32| #[trigger]
            flows_from_entry(db@, entry_point, addr) implies places@.contains_key(addr) by {
            let path = choose|path: Seq<u32>|
                #[trigger] is_flow(db@, path) && path[0] == entry_point && path.last() == addr;
            lemma_flow_stays(db@, entry_point, sketches(blocks@), places@, path);
        }
    }
    Ok((blocks, places))
}


/// Whether two lists hold the same blocks but for their predecessors.
pub open spec fn same_cut(a: Seq<Sketch>, b: Seq<Sketch>) -> bool {
    &&& a.len() == b.len()
    &&& forall|i: int|
        0 <= i < a.len() ==> (#[trigger] a[i]).addr == b[i].addr && a[i].end == b[i].end
            && a[i].successors == b[i].successors
}

/// Tells each block which blocks have it as a successor.
fn link_blocks(blocks: &mut Vec<(u32, BasicBlockFactBuilder)>, places: &HashMap<u32, usize>)
    requires
        placed(sketches(old(blocks)@), places@),
        closed_under_successors(sketches(old(blocks)@), places@),
        forall|i: int|
            0 <= i < old(blocks)@.len() ==> (#[trigger] sketches(old(blocks)@)[i]).predecessors
                == Set::<u32>::empty(),
    ensures
        same_cut(sketches(old(blocks)@), sketches(final(blocks)@)),
        linked(sketches(final(blocks)@), final(blocks)@.len() as int),
{
    broadcast use vstd::std_specs::hash::group_hash_axioms;

    let ghost base = sketches(blocks@);
    let mut i: usize = 0;
    while i < blocks.len()
        invariant
            i <= blocks.len(),
            base == sketches(old(blocks)@),
            placed(base, places@),
            closed_under_successors(base, places@),
            same_cut(base, sketches(blocks@)),
            forall|j: int, source: u32|
                0 <= j < base.len() ==> (#[trigger] sketches(blocks@)[j].predecessors.contains(
                    source,
                ) <==> goes_to(base, i as int, source, base[j].addr)),
        decreases blocks.len() - i,
    {
        let addr = blocks[i].0;
        let targets = vstd::slice::slice_to_vec(blocks[i].1.successors());
        assert(targets@ == base[i as int].successors);
        let mut t: usize = 0;
        while t < targets.len()
            invariant
                t <= targets.len(),
                i < blocks.len(),
                addr == base[i as int].addr,
                targets@ == base[i as int].successors,
                placed(base, places@),
                closed_under_successors(base, places@),
                same_cut(base, sketches(blocks@)),
                forall|j: int, source: u32|
                    0 <= j < base.len() ==> (#[trigger] sketches(blocks@)[j].predecessors.contains(
                        source,
                    ) <==> goes_to(base, i as int, source, base[j].addr) || (source == addr
                        && targets@.take(t as int).contains(base[j].addr))),
            decreases targets.len() - t,
        {
            let target = targets[t];
            proof {
                assert(places@.contains_key(base[i as int].successors[t as int]));
            }
            let place = match places.get(&target) {
                Some(place) => *place,
                None => {
                    proof {
                        assert(false);
                    }
                    0
                },
            };
            let ghost before = sketches(blocks@);
            let block = &mut blocks[place];
            block.1.insert_predecessor(addr);
            proof {
                let after = sketches(blocks@);
                assert(targets@.take(t + 1) =~= targets@.take(t as int).push(target));
                assert forall|j: int| 0 <= j < base.len() && j != place implies after[j]
                    == before[j] by {}
                assert(after[place as int].predecessors == before[place as int].predecessors.insert(
                    addr,
                ));
                assert forall|j: int, source: u32| 0 <= j < base.len() implies (
                #[trigger] after[j].predecessors.contains(source) <==> goes_to(
                    base,
                    i as int,
                    source,
                    base[j].addr,
                ) || (source == addr && targets@.take(t + 1).contains(base[j].addr))) by {
                    assert(before[j].predecessors.contains(source) <==> goes_to(
                        base,
                        i as int,
                        source,
                        base[j].addr,
                    ) || (source == addr && targets@.take(t as int).contains(base[j].addr)));
                    if base[j].addr == target {
                        assert(places@[base[j].addr] == j);
                        assert(j == place);
                        assert(targets@.take(t + 1)[t as int] == target);
                    } else {
                        assert(j != place);
                        vstd::seq_lib::lemma_seq_contains_after_push(
                            targets@.take(t as int),
                            target,
                            base[j].addr,
                        );
                    }
                }
            }
            t += 1;
        }
        proof {
            assert(targets@.take(targets@.len() as int) =~= targets@);
            let now = sketches(blocks@);
            assert forall|j: int, source: u32| 0 <= j < base.len() implies (
            #[trigger] now[j].predecessors.contains(source) <==> goes_to(
                base,
                i + 1,
                source,
                base[j].addr,
            )) by {
                let target = base[j].addr;
                if goes_to(base, i + 1, source, target) {
                    let k = choose|k: int|
                        0 <= k < i + 1 && k < base.len() && (#[trigger] base[k]).addr == source
                            && base[k].successors.contains(target);
                    if k < i {
                        assert(goes_to(base, i as int, source, target));
                    } else {
                        assert(source == addr);
                    }
                }
                if goes_to(base, i as int, source, target) {
                    let k = choose|k: int|
                        0 <= k < i && k < base.len() && (#[trigger] base[k]).addr == source
                            && base[k].successors.contains(target);
                    assert(base[k].addr == source && base[k].successors.contains(target));
                    assert(goes_to(base, i + 1, source, target));
                }
                if source == addr && targets@.contains(target) {
                    assert(base[i as int].addr == source && base[i as int].successors.contains(
                        target,
                    ));
                    assert(goes_to(base, i + 1, source, target));
                }
            }
        }
        i += 1;
    }
    proof {
        let last = sketches(blocks@);
        assert forall|j: int, source: u32| 0 <= j < last.len() implies ((
        #[trigger] last[j]).predecessors.contains(source) <==> #[trigger] goes_to(
            last,
            last.len() as int,
            source,
            last[j].addr,
        )) by {
            let target = last[j].addr;
            assert(last[j].predecessors.contains(source) <==> goes_to(
                base,
                base.len() as int,
                source,
                base[j].addr,
            ));
            if goes_to(base, base.len() as int, source, target) {
                let k = choose|k: int|
                    0 <= k < base.len() && k < base.len() && (#[trigger] base[k]).addr == source
                        && base[k].successors.contains(target);
                assert(last[k].addr == source && last[k].successors.contains(target));
            }
            if goes_to(last, last.len() as int, source, target) {
                let k = choose|k: int|
                    0 <= k < last.len() && k < last.len() && (#[trigger] last[k]).addr == source
                        && last[k].successors.contains(target);
                assert(base[k].addr == source && base[k].successors.contains(target));
            }
        }
    }
}


/// Whether two collections of facts about an address say the same but for
/// the basic block.
pub open spec fn same_besides_block(a: FactsView, b: FactsView) -> bool {
    &&& a.branch_target == b.branch_target
    &&& a.subroutine == b.subroutine
    &&& a.subroutine_call == b.subroutine_call
    &&& a.basic_block_end == b.basic_block_end
    &&& a.parse_error == b.parse_error
}

/// Whether the facts about an address hold the basic block of a sketch:
/// with its end and successors, with its predecessors in ascending order,
/// and without writes.
pub open spec fn holds_block(facts: FactsView, sketch: Sketch) -> bool {
    &&& facts.basic_block is Some
    &&& facts.basic_block->0.end == sketch.end
    &&& facts.basic_block->0.successors == sketch.successors
    &&& ascending(facts.basic_block->0.predecessors)
    &&& facts.basic_block->0.predecessors.to_set() == sketch.predecessors
    &&& facts.basic_block->0.writes == Seq::<Write>::empty()
}

/// Whether `after` is `before` with the blocks of the list from `from` on
/// recorded, and nothing else changed.
pub open spec fn recorded(
    before: Map<u32, FactsView>,
    after: Map<u32, FactsView>,
    blocks: Seq<Sketch>,
    from: int,
) -> bool {
    &&& forall|addr: u32|
        same_besides_block(facts_about(before, addr), #[trigger] facts_about(after, addr))
    &&& forall|i: int|
        from <= i < blocks.len() ==> holds_block(
            facts_about(after, (#[trigger] blocks[i]).addr),
            blocks[i],
        )
    &&& forall|addr: u32|
        (#[trigger] facts_about(after, addr)).basic_block is Some ==> exists|i: int|
            from <= i < blocks.len() && (#[trigger] blocks[i]).addr == addr
}

/// Records basic blocks.
fn record_blocks(db: &mut FactDatabase, blocks: Vec<(u32, BasicBlockFactBuilder)>)
    requires
        old(db).wf(),
        forall|addr: u32| (#[trigger] facts_about(old(db)@, addr)).basic_block is None,
        forall|i: int, j: int|
            0 <= i < j < blocks@.len() ==> (#[trigger] sketches(blocks@)[i]).addr != (
            #[trigger] sketches(blocks@)[j]).addr,
    ensures
        final(db).wf(),
        recorded(old(db)@, final(db)@, sketches(blocks@), 0),
{
    let ghost all = sketches(blocks@);
    let mut blocks = blocks;
    loop
        invariant
            db.wf(),
            blocks@.len() <= all.len(),
            sketches(blocks@) =~= all.take(blocks@.len() as int),
            forall|i: int, j: int|
                0 <= i < j < all.len() ==> (#[trigger] all[i]).addr != (#[trigger] all[j]).addr,
            recorded(old(db)@, db@, all, blocks@.len() as int),
        ensures
            db.wf(),
            recorded(old(db)@, db@, all, 0),
        decreases blocks@.len(),
    {
        let ghost before = db@;
        let ghost left = blocks@;
        let (addr, builder) = match blocks.pop() {
            Some(block) => block,
            None => {
                break ;
            },
        };
        let ghost place = blocks@.len() as int;
        proof {
            assert(sketches(left)[place] == all[place]);
            assert(all[place].addr == addr);
            if facts_about(before, addr).basic_block is Some {
                let i = choose|i: int|
                    place + 1 <= i < all.len() && (#[trigger] all[i]).addr == addr;
                assert(all[place].addr != all[i].addr);
            }
        }
        let fact = builder.build();
        db.insert_fact(addr, fact);
        proof {
            let after = db@;
            assert(sketches(blocks@) =~= all.take(blocks@.len() as int)) by {
                assert forall|i: int| 0 <= i < blocks@.len() implies sketches(blocks@)[i]
                    == all[i] by {
                    assert(sketches(left)[i] == all[i]);
                }
            }
            assert forall|other: u32| other != addr implies #[trigger] facts_about(after, other)
                == facts_about(before, other) by {}
            assert(holds_block(facts_about(after, addr), all[place]));
            assert(same_besides_block(facts_about(before, addr), facts_about(after, addr)));
            assert forall|other: u32|
                same_besides_block(
                    facts_about(old(db)@, other),
                    #[trigger] facts_about(after, other),
                ) by {
                assert(same_besides_block(
                    facts_about(old(db)@, other),
                    facts_about(before, other),
                ));
            }
            assert forall|i: int| place <= i < all.len() implies holds_block(
                facts_about(after, (#[trigger] all[i]).addr),
                all[i],
            ) by {
                if i > place {
                    assert(all[place].addr != all[i].addr);
                    assert(holds_block(facts_about(before, all[i].addr), all[i]));
                }
            }
            assert forall|other: u32|
                (#[trigger] facts_about(after, other)).basic_block is Some implies exists|i: int|
                place <= i < all.len() && (#[trigger] all[i]).addr == other by {
                if other != addr {
                    assert(facts_about(before, other).basic_block is Some);
                    let i = choose|i: int|
                        place + 1 <= i < all.len() && (#[trigger] all[i]).addr == other;
                    assert(all[i].addr == other);
                } else {
                    assert(all[place].addr == other);
                }
            }
        }
    }
}

/// Whether `after` is `before` with the basic blocks of the code built.
///
/// Nothing but basic blocks is added. A basic block starts at the entry
/// point and wherever control can get from there, and nowhere else. Every
/// basic block ends with the first instruction from its start
/// on that ends a basic block, has the successors of that instruction, in
/// ascending order, and no writes yet. A basic block starts at each of its
/// successors, and its predecessors, in ascending order, are the basic
/// blocks that have it as a successor.
pub open spec fn built(before: Map<u32, FactsView>, after: Map<u32, FactsView>, entry_point: u32) -> bool {
    &&& forall|addr: u32|
        same_besides_block(facts_about(before, addr), #[trigger] facts_about(after, addr))
    &&& facts_about(after, entry_point).basic_block is Some
    &&& forall|addr: u32|
        facts_about(after, addr).basic_block is Some <==> #[trigger] flows_from_entry(
            before,
            entry_point,
            addr,
        )
    &&& forall|addr: u32|
        (#[trigger] facts_about(after, addr)).basic_block is Some ==> is_block(
            before,
            after,
            addr,
            facts_about(after, addr).basic_block->0,
        )
}

/// Whether `block` is the basic block that starts at `addr`.
pub open spec fn is_block(
    before: Map<u32, FactsView>,
    after: Map<u32, FactsView>,
    addr: u32,
    block: BlockView,
) -> bool {
    &&& block_last(before, addr) is Some
    &&& block.end == block_last(before, addr)->0 + 4
    &&& ascending(block.successors)
    &&& block.successors.to_set() == block_successors(before, (block.end - 4) as u32)
    &&& ascending(block.predecessors)
    &&& block.writes == Seq::<Write>::empty()
    &&& forall|k: int|
        0 <= k < block.successors.len() ==> facts_about(
            after,
            #[trigger] block.successors[k],
        ).basic_block is Some
    &&& forall|source: u32| #[trigger]
        block.predecessors.contains(source) <==> facts_about(after, source).basic_block is Some
            && facts_about(after, source).basic_block->0.successors.contains(addr)
}

/// Builds basic blocks and records [`BasicBlockFact`]s: finds the basic
/// blocks that can be reached from the entry point, tells each which blocks
/// have it as a successor, and records them. Records nothing if one of the
/// blocks has no end in the 32-bit address space, and names one such block.
pub fn build_basic_blocks(db: &mut FactDatabase, entry_point: u32) -> (r: Result<(), Unterminated>)
    requires
        old(db).wf(),
        forall|addr: u32| (#[trigger] facts_about(old(db)@, addr)).basic_block is None,
    ensures
        final(db).wf(),
        match r {
            Ok(()) => built(old(db)@, final(db)@, entry_point),
            Err(start) => {
                &&& final(db)@ == old(db)@
                &&& flows_from_entry(old(db)@, entry_point, start.0)
                &&& block_last(old(db)@, start.0) is None
            },
        },
{
    broadcast use vstd::std_specs::hash::group_hash_axioms;

    let (mut blocks, places) = match find_blocks(db, entry_point) {
        Ok(found) => found,
        Err(start) => {
            return Err(start);
        },
    };
    let ghost found = sketches(blocks@);
    link_blocks(&mut blocks, &places);
    let ghost all = sketches(blocks@);
    proof {
        assert forall|i: int, j: int| 0 <= i < j < all.len() implies (#[trigger] all[i]).addr != (
        #[trigger] all[j]).addr by {
            assert(places@[found[i].addr] == i);
            assert(places@[found[j].addr] == j);
        }
    }
    record_blocks(db, blocks);
    proof {
        let before = old(db)@;
        let after = db@;
        let entry_place = places@[entry_point] as int;
        assert(found[entry_place].addr == entry_point);
        assert(holds_block(facts_about(after, all[entry_place].addr), all[entry_place]));
        assert forall|addr: u32|
            facts_about(after, addr).basic_block is Some <==> #[trigger] flows_from_entry(
                before,
                entry_point,
                addr,
            ) by {
            if facts_about(after, addr).basic_block is Some {
                let i = choose|i: int| 0 <= i < all.len() && (#[trigger] all[i]).addr == addr;
                assert(found[i].addr == addr);
                assert(places@.contains_key(found[i].addr));
            }
            if flows_from_entry(before, entry_point, addr) {
                let i = places@[addr] as int;
                assert(found[i].addr == addr);
                assert(holds_block(facts_about(after, all[i].addr), all[i]));
            }
        }
        assert forall|addr: u32|
            (#[trigger] facts_about(after, addr)).basic_block is Some implies is_block(
            before,
            after,
            addr,
            facts_about(after, addr).basic_block->0,
        ) by {
            let block = facts_about(after, addr).basic_block->0;
            let i = choose|i: int| 0 <= i < all.len() && (#[trigger] all[i]).addr == addr;
            assert(holds_block(facts_about(after, all[i].addr), all[i]));
            assert(found[i].addr == all[i].addr);
            assert forall|k: int| 0 <= k < block.successors.len() implies facts_about(
                after,
                #[trigger] block.successors[k],
            ).basic_block is Some by {
                let target = found[i].successors[k];
                assert(places@.contains_key(target));
                let j = places@[target] as int;
                assert(found[j].addr == target);
                assert(holds_block(facts_about(after, all[j].addr), all[j]));
            }
            assert forall|source: u32| #[trigger]
                block.predecessors.contains(source) <==> facts_about(
                    after,
                    source,
                ).basic_block is Some && facts_about(
                    after,
                    source,
                ).basic_block->0.successors.contains(addr) by {
                assert(block.predecessors.contains(source) <==> all[i].predecessors.contains(
                    source,
                ));
                assert(all[i].predecessors.contains(source) <==> goes_to(
                    all,
                    all.len() as int,
                    source,
                    all[i].addr,
                ));
                if goes_to(all, all.len() as int, source, addr) {
                    let k = choose|k: int|
                        0 <= k < all.len() && k < all.len() && (#[trigger] all[k]).addr == source
                            && all[k].successors.contains(addr);
                    assert(holds_block(facts_about(after, all[k].addr), all[k]));
                }
                if facts_about(after, source).basic_block is Some && facts_about(
                    after,
                    source,
                ).basic_block->0.successors.contains(addr) {
                    let k = choose|k: int| 0 <= k < all.len() && (#[trigger] all[k]).addr == source;
                    assert(holds_block(facts_about(after, all[k].addr), all[k]));
                    assert(all[k].addr == source && all[k].successors.contains(addr));
                }
            }
        }
    }
    Ok(())
}

/// Every edge of the graph of basic blocks is known at both of its ends: a
/// basic block starts at each successor of a basic block, and has that block
/// among its predecessors.
pub proof fn lemma_edges(
    before: Map<u32, FactsView>,
    after: Map<u32, FactsView>,
    entry_point: u32,
    addr: u32,
    successor: u32,
)
    requires
        built(before, after, entry_point),
        facts_about(after, addr).basic_block is Some,
        facts_about(after, addr).basic_block->0.successors.contains(successor),
    ensures
        facts_about(after, successor).basic_block is Some,
        facts_about(after, successor).basic_block->0.predecessors.contains(addr),
{
    let block = facts_about(after, addr).basic_block->0;
    assert(is_block(before, after, addr, block));
    let k = choose|k: int| 0 <= k < block.successors.len() && block.successors[k] == successor;
    assert(facts_about(after, block.successors[k]).basic_block is Some);
    let next = facts_about(after, successor).basic_block->0;
    assert(is_block(before, after, successor, next));
}

/// The extent of every basic block: its end lies behind its start, a whole
/// number of instructions away, and of the instructions of the block only
/// the last can have the end of a basic block noted at it.
pub proof fn lemma_extent(
    before: Map<u32, FactsView>,
    after: Map<u32, FactsView>,
    entry_point: u32,
    addr: u32,
)
    requires
        built(before, after, entry_point),
        facts_about(after, addr).basic_block is Some,
    ensures
        ({
            let end = facts_about(after, addr).basic_block->0.end;
            &&& end > addr
            &&& (end - addr) % 4 == 0
            &&& forall|inside: u32|
                addr <= inside < end - 4 && (inside - addr) % 4 == 0 ==> (#[trigger] facts_about(
                    after,
                    inside,
                )).basic_block_end is None
        }),
{
    let block = facts_about(after, addr).basic_block->0;
    assert(is_block(before, after, addr, block));
    lemma_block_extent(before, addr);
    let last = block_last(before, addr)->0;
    assert forall|inside: u32|
        addr <= inside < block.end - 4 && (inside - addr) % 4 == 0 implies (#[trigger] facts_about(
        after,
        inside,
    )).basic_block_end is None by {
        assert(!crate::fact::basic_block::ends_block(before, inside));
        assert(same_besides_block(facts_about(before, inside), facts_about(after, inside)));
    }
}

} // verus!
