//! The registry of balance checker contracts: for each supported chain, the
//! address at which the contract is deployed.

use vstd::prelude::*;
use crate::address::{lemma_address_by_bytes, parsed_address, Address};
use crate::word::ChainId;

verus! {

/// The map that a list of entries stands for. Where a chain is listed more
/// than once, the later entry replaces the earlier one.
pub open spec fn entries_map(entries: Seq<(ChainId, Address)>) -> Map<ChainId, Address>
    decreases entries.len(),
{
    if entries.len() == 0 {
        Map::empty()
    } else {
        entries_map(entries.drop_last()).insert(entries.last().0, entries.last().1)
    }
}

/// Whether `entry` is what the line `line` of a table says: the chain with the
/// line's number, at the address that the line's text reads as.
pub open spec fn entry_reads(entry: (ChainId, Address), line: (u64, Seq<char>)) -> bool {
    &&& entry.0 == (ChainId { hi: 0, lo: line.0 as u128 })
    &&& parsed_address(line.1) == Some(entry.1@)
}

/// The chains on which the balance checker contract is deployed, each with the
/// contract's address as text. One chain is listed twice.
pub open spec fn deployment_table() -> Seq<(u64, Seq<char>)> {
    seq![
        (1u64, "0xb1f8e55c7f64d203c1400b9d8555d050f94adf39"@),
        (3u64, "0x8D9708f3F514206486D7E988533f770a16d074a7"@),
        (4u64, "0x3183B673f4816C94BeF53958BaF93C671B7F8Cf2"@),
        (69u64, "0x55ABBa8d669D60A10c104CC493ec5ef389EC92bb"@),
        (5u64, "0x9788C4E93f9002a7ad8e72633b11E8d1ecd51f9b"@),
        (56u64, "0x2352c63A83f9Fd126af8676146721Fa00924d7e4"@),
        (97u64, "0x2352c63A83f9Fd126af8676146721Fa00924d7e4"@),
        (137u64, "0x2352c63A83f9Fd126af8676146721Fa00924d7e4"@),
        (80001u64, "0x2352c63A83f9Fd126af8676146721Fa00924d7e4"@),
        (10u64, "0xB1c568e9C3E6bdaf755A60c7418C269eb11524FC"@),
        (69u64, "0xB1c568e9C3E6bdaf755A60c7418C269eb11524FC"@),
        (42161u64, "0x151E24A486D7258dd7C33Fb67E4bB01919B7B32c"@),
        (43114u64, "0xD023D153a0DFa485130ECFdE2FAA7e612EF94818"@),
        (250u64, "0x07f697424ABe762bB808c109860c04eA488ff92B"@),
        (25u64, "0x56a4420cb0ef5b0d14ce1bbe380992fa31d6a907"@),
        (66u64, "0x25B3584f4799F788c0189dd6496b0AA02cBA4605"@),
        (1666600000u64, "0x549b6A5A3027F9B73A23Db4bb95701bAcb9b9573"@),
        (17000u64, "0x437DF28584e878948aE2417E86e15690cCf822F4"@),
    ]
}

/// The lines of `deployment_table`.
pub fn deployments() -> (table: Vec<(u64, &'static str)>)
    ensures
        table@.len() == deployment_table().len(),
        forall|i: int|
            0 <= i < table@.len() ==> (#[trigger] table@[i]).0 == deployment_table()[i].0
                && table@[i].1@ == deployment_table()[i].1,
{
    let mut table: Vec<(u64, &'static str)> = Vec::new();
    table.push((1, "0xb1f8e55c7f64d203c1400b9d8555d050f94adf39"));
    table.push((3, "0x8D9708f3F514206486D7E988533f770a16d074a7"));
    table.push((4, "0x3183B673f4816C94BeF53958BaF93C671B7F8Cf2"));
    table.push((69, "0x55ABBa8d669D60A10c104CC493ec5ef389EC92bb"));
    table.push((5, "0x9788C4E93f9002a7ad8e72633b11E8d1ecd51f9b"));
    table.push((56, "0x2352c63A83f9Fd126af8676146721Fa00924d7e4"));
    table.push((97, "0x2352c63A83f9Fd126af8676146721Fa00924d7e4"));
    table.push((137, "0x2352c63A83f9Fd126af8676146721Fa00924d7e4"));
    table.push((80001, "0x2352c63A83f9Fd126af8676146721Fa00924d7e4"));
    table.push((10, "0xB1c568e9C3E6bdaf755A60c7418C269eb11524FC"));
    table.push((69, "0xB1c568e9C3E6bdaf755A60c7418C269eb11524FC"));
    table.push((42161, "0x151E24A486D7258dd7C33Fb67E4bB01919B7B32c"));
    table.push((43114, "0xD023D153a0DFa485130ECFdE2FAA7e612EF94818"));
    table.push((250, "0x07f697424ABe762bB808c109860c04eA488ff92B"));
    table.push((25, "0x56a4420cb0ef5b0d14ce1bbe380992fa31d6a907"));
    table.push((66, "0x25B3584f4799F788c0189dd6496b0AA02cBA4605"));
    table.push((1666600000, "0x549b6A5A3027F9B73A23Db4bb95701bAcb9b9573"));
    table.push((17000, "0x437DF28584e878948aE2417E86e15690cCf822F4"));
    table
}

/// The entries that lines with an address stand for.
pub open spec fn entries_of(lines: Seq<(u64, Option<Address>)>) -> Seq<(ChainId, Address)> {
    Seq::new(
        lines.len(),
        |i: int| (ChainId { hi: 0, lo: lines[i].0 as u128 }, lines[i].1->Some_0),
    )
}

/// The position of the first line without an address, or the number of lines
/// where each has one.
pub open spec fn first_unread(lines: Seq<(u64, Option<Address>)>) -> int
    decreases lines.len(),
{
    if lines.len() == 0 {
        0
    } else if lines[0].1 is None {
        0
    } else {
        1 + first_unread(lines.drop_first())
    }
}

/// `first_unread` is the position of a line without an address, if there is
/// one, and every line before it has an address.
pub proof fn lemma_first_unread(lines: Seq<(u64, Option<Address>)>)
    ensures
        0 <= first_unread(lines) <= lines.len(),
        first_unread(lines) < lines.len() ==> lines[first_unread(lines)].1 is None,
        forall|i: int| 0 <= i < first_unread(lines) ==> (#[trigger] lines[i]).1 is Some,
    decreases lines.len(),
{
    if lines.len() > 0 && lines[0].1 is Some {
        let rest = lines.drop_first();
        lemma_first_unread(rest);
        assert forall|i: int| 0 <= i < first_unread(lines) implies (#[trigger] lines[i]).1 is Some by {
            if i > 0 {
                assert(rest[i - 1] == lines[i]);
            }
        }
        if first_unread(lines) < lines.len() {
            assert(rest[first_unread(rest)] == lines[first_unread(lines)]);
        }
    }
}

/// Why a registry could not be built.
#[derive(Debug, PartialEq, Eq)]
pub enum RegistryError {
    /// The text of a line is no address.
    MalformedAddress {
        /// The position of the line in the table.
        line: usize,
    },
}

/// For each supported chain, the address of its balance checker contract. A
/// registry is built once and never changed.
#[derive(Debug)]
pub struct ChainRegistry {
    entries: Vec<(ChainId, Address)>,
}

impl ChainRegistry {
    /// The entries that the registry was built from, in their order.
    pub closed spec fn entry_seq(&self) -> Seq<(ChainId, Address)> {
        self.entries@
    }

    /// The registry as a map from chain to contract address.
    pub open spec fn view(&self) -> Map<ChainId, Address> {
        entries_map(self.entry_seq())
    }

    /// What `resolve` returns for `chain_id`.
    pub open spec fn resolved(&self, chain_id: ChainId) -> Option<Address> {
        if self@.contains_key(chain_id) {
            Some(self@[chain_id])
        } else {
            None
        }
    }

    /// The registry of the given entries. Where a chain is listed more than
    /// once, the later entry replaces the earlier one.
    pub fn from_entries(entries: Vec<(ChainId, Address)>) -> (registry: ChainRegistry)
        ensures
            registry.entry_seq() == entries@,
            registry@ == entries_map(entries@),
    {
        ChainRegistry { entries }
    }

    /// The registry of the given lines: a chain's number and its contract's
    /// address, or `None` where the address could not be read. A line without
    /// an address is reported, the first such line if there are several.
    pub fn from_lines(lines: &Vec<(u64, Option<Address>)>) -> (outcome: Result<
        ChainRegistry,
        RegistryError,
    >)
        ensures
            match outcome {
                Ok(registry) => {
                    &&& forall|i: int| 0 <= i < lines@.len() ==> (#[trigger] lines@[i]).1 is Some
                    &&& registry.entry_seq() == entries_of(lines@)
                },
                Err(error) => {
                    &&& 0 <= first_unread(lines@) < lines@.len()
                    &&& error == (RegistryError::MalformedAddress {
                        line: first_unread(lines@) as usize,
                    })
                },
            },
    {
        let mut entries: Vec<(ChainId, Address)> = Vec::new();
        let mut i: usize = 0;
        proof {
            lemma_first_unread(lines@);
        }
        while i < lines.len()
            invariant
                i <= lines@.len(),
                entries@ == entries_of(lines@.take(i as int)),
                forall|k: int| 0 <= k < i ==> (#[trigger] lines@[k]).1 is Some,
                first_unread(lines@) >= i,
            decreases lines@.len() - i,
        {
            let number: u64 = lines[i].0;
            proof {
                lemma_first_unread(lines@);
            }
            match lines[i].1 {
                Some(address) => {
                    entries.push((ChainId::from_u64(number), address));
                    assert(entries@ =~= entries_of(lines@.take(i + 1)));
                },
                None => {
                    return Err(RegistryError::MalformedAddress { line: i });
                },
            }
            i += 1;
        }
        proof {
            assert(lines@.take(i as int) =~= lines@);
        }
        Ok(ChainRegistry { entries })
    }

    /// The registry that the lines of `table` describe: a chain's number and
    /// its contract's address as text. A line whose text is no address is
    /// reported, the first such line if there are several.
    pub fn from_table(table: &Vec<(u64, &str)>) -> (outcome: Result<ChainRegistry, RegistryError>)
        ensures
            match outcome {
                Ok(registry) => {
                    &&& registry.entry_seq().len() == table@.len()
                    &&& forall|i: int|
                        0 <= i < table@.len() ==> entry_reads(
                            #[trigger] registry.entry_seq()[i],
                            (table@[i].0, table@[i].1@),
                        )
                },
                Err(error) => exists|line: int|
                    {
                        &&& 0 <= line < table@.len()
                        &&& error == (RegistryError::MalformedAddress { line: line as usize })
                        &&& parsed_address(#[trigger] table@[line].1@).is_none()
                        &&& forall|i: int|
                            0 <= i < line ==> parsed_address(#[trigger] table@[i].1@).is_some()
                    },
            },
    {
        let mut lines: Vec<(u64, Option<Address>)> = Vec::new();
        let mut i: usize = 0;
        while i < table.len()
            invariant
                i <= table@.len(),
                lines@.len() == i,
                forall|k: int|
                    0 <= k < i ==> (#[trigger] lines@[k]).0 == table@[k].0 && match lines@[k].1 {
                        Some(address) => parsed_address(table@[k].1@) == Some(address@),
                        None => parsed_address(table@[k].1@).is_none(),
                    },
            decreases table@.len() - i,
        {
            let number: u64 = table[i].0;
            lines.push((number, Address::from_hex(table[i].1)));
            i += 1;
        }
        let outcome = ChainRegistry::from_lines(&lines);
        proof {
            lemma_first_unread(lines@);
            if outcome is Err {
                let line = first_unread(lines@);
                assert(lines@[line].1 is None);
                assert(parsed_address(table@[line].1@).is_none());
                assert forall|k: int| 0 <= k < line implies parsed_address(
                    #[trigger] table@[k].1@,
                ).is_some() by {
                    assert(lines@[k].1 is Some);
                }
            } else {
                let registry = outcome->Ok_0;
                assert forall|k: int| 0 <= k < table@.len() implies entry_reads(
                    #[trigger] registry.entry_seq()[k],
                    (table@[k].0, table@[k].1@),
                ) by {
                    assert(lines@[k].1 is Some);
                }
            }
        }
        outcome
    }

    /// The registry of the chains on which the contract is deployed, as
    /// `deployment_table` lists them.
    pub fn deployed() -> (outcome: Result<ChainRegistry, RegistryError>)
        ensures
            match outcome {
                Ok(registry) => {
                    &&& registry.entry_seq().len() == deployment_table().len()
                    &&& forall|i: int|
                        0 <= i < deployment_table().len() ==> entry_reads(
                            #[trigger] registry.entry_seq()[i],
                            deployment_table()[i],
                        )
                },
                Err(error) => exists|line: int|
                    {
                        &&& 0 <= line < deployment_table().len()
                        &&& error == (RegistryError::MalformedAddress { line: line as usize })
                        &&& parsed_address(#[trigger] deployment_table()[line].1).is_none()
                        &&& forall|i: int|
                            0 <= i < line ==> parsed_address(
                                #[trigger] deployment_table()[i].1,
                            ).is_some()
                    },
            },
    {
        let table = deployments();
        let outcome = ChainRegistry::from_table(&table);
        proof {
            assert forall|i: int| 0 <= i < table@.len() implies (table@[i].0, table@[i].1@)
                == #[trigger] deployment_table()[i] by {
                assert(table@[i].0 == deployment_table()[i].0);
            }
            if outcome is Ok {
                let registry = outcome->Ok_0;
                {
                    assert forall|i: int| 0 <= i < deployment_table().len() implies entry_reads(
                        #[trigger] registry.entry_seq()[i],
                        deployment_table()[i],
                    ) by {
                        assert(table@[i].0 == deployment_table()[i].0);
                    }
                }
            } else {
                let error = outcome->Err_0;
                {
                    let line = choose|line: int|
                        {
                            &&& 0 <= line < table@.len()
                            &&& error == (RegistryError::MalformedAddress { line: line as usize })
                            &&& parsed_address(#[trigger] table@[line].1@).is_none()
                            &&& forall|i: int|
                                0 <= i < line ==> parsed_address(#[trigger] table@[i].1@).is_some()
                        };
                    assert(table@[line].0 == deployment_table()[line].0);
                    assert forall|i: int| 0 <= i < line implies parsed_address(
                        #[trigger] deployment_table()[i].1,
                    ).is_some() by {
                        assert(table@[i].0 == deployment_table()[i].0);
                        assert(parsed_address(table@[i].1@).is_some());
                    }
                    assert(parsed_address(deployment_table()[line].1).is_none());
                }
            }
        }
        outcome
    }

    /// The number of entries that the registry was built from.
    pub fn entry_count(&self) -> (count: usize)
        ensures
            count == self.entry_seq().len(),
    {
        self.entries.len()
    }

    /// The address of the balance checker contract on `chain_id`, or `None`
    /// where the chain has no entry.
    pub fn resolve(&self, chain_id: ChainId) -> (found: Option<Address>)
        ensures
            found == self.resolved(chain_id),
            found is Some <==> self@.contains_key(chain_id),
    {
        let mut found: Option<Address> = None;
        let mut i: usize = 0;
        while i < self.entries.len()
            invariant
                i <= self.entries@.len(),
                found == if entries_map(self.entries@.take(i as int)).contains_key(chain_id) {
                    Some(entries_map(self.entries@.take(i as int))[chain_id])
                } else {
                    None
                },
            decreases self.entries@.len() - i,
        {
            proof {
                assert(self.entries@.take(i + 1).drop_last() =~= self.entries@.take(i as int));
            }
            if self.entries[i].0 == chain_id {
                found = Some(self.entries[i].1);
            }
            i += 1;
        }
        proof {
            assert(self.entries@.take(i as int) =~= self.entries@);
        }
        found
    }
}

/// A chain that no entry lists has no address.
pub proof fn lemma_entries_map_unlisted(entries: Seq<(ChainId, Address)>, chain_id: ChainId)
    requires
        forall|i: int| 0 <= i < entries.len() ==> (#[trigger] entries[i]).0 != chain_id,
    ensures
        !entries_map(entries).contains_key(chain_id),
    decreases entries.len(),
{
    if entries.len() > 0 {
        let front = entries.drop_last();
        assert(entries[entries.len() - 1].0 != chain_id);
        assert forall|i: int| 0 <= i < front.len() implies (#[trigger] front[i]).0 != chain_id by {
            assert(entries[i].0 != chain_id);
        }
        lemma_entries_map_unlisted(front, chain_id);
    }
}

/// The address of a chain is that of the last entry that lists it.
pub proof fn lemma_entries_map_last(entries: Seq<(ChainId, Address)>, chain_id: ChainId, i: int)
    requires
        0 <= i < entries.len(),
        entries[i].0 == chain_id,
        forall|k: int| i < k < entries.len() ==> (#[trigger] entries[k]).0 != chain_id,
    ensures
        entries_map(entries).contains_key(chain_id),
        entries_map(entries)[chain_id] == entries[i].1,
    decreases entries.len(),
{
    if i < entries.len() - 1 {
        let front = entries.drop_last();
        assert(entries[entries.len() - 1].0 != chain_id);
        assert(front[i] == entries[i]);
        assert forall|k: int| i < k < front.len() implies (#[trigger] front[k]).0 != chain_id by {
            assert(entries[k].0 != chain_id);
        }
        lemma_entries_map_last(front, chain_id, i);
    }
}

/// A table is read in one way only: two registries that the same lines
/// describe hold the same entries and resolve every chain alike.
pub proof fn lemma_table_determines_registry(
    first: ChainRegistry,
    second: ChainRegistry,
    table: Seq<(u64, Seq<char>)>,
)
    requires
        first.entry_seq().len() == table.len(),
        second.entry_seq().len() == table.len(),
        forall|i: int| 0 <= i < table.len() ==> entry_reads(#[trigger] first.entry_seq()[i], table[i]),
        forall|i: int|
            0 <= i < table.len() ==> entry_reads(#[trigger] second.entry_seq()[i], table[i]),
    ensures
        first.entry_seq() == second.entry_seq(),
        first@ == second@,
        forall|chain_id: ChainId| first.resolved(chain_id) == second.resolved(chain_id),
{
    assert forall|i: int| 0 <= i < table.len() implies first.entry_seq()[i] == second.entry_seq()[i] by {
        assert(entry_reads(first.entry_seq()[i], table[i]));
        assert(entry_reads(second.entry_seq()[i], table[i]));
        lemma_address_by_bytes(first.entry_seq()[i].1, second.entry_seq()[i].1);
    }
    assert(first.entry_seq() =~= second.entry_seq());
}

/// A registry never changes its answer: two lookups of one chain in one
/// registry return the same address, or both none.
pub proof fn lemma_resolve_stable(
    registry: ChainRegistry,
    chain_id: ChainId,
    first: Option<Address>,
    second: Option<Address>,
)
    requires
        first == registry.resolved(chain_id),
        second == registry.resolved(chain_id),
    ensures
        first == second,
{
}

} // verus!
