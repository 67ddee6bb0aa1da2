//! The symbol table: a mapping from symbolic names to 16-bit addresses.
//!
//! The table is pre-seeded with the architecture-defined names, holds the
//! labels declared in pass 1 and the variables allocated in pass 2, and
//! carries the cursor for the next free variable address.  It is held as an
//! association list whose keys never repeat, viewed as a
//! [`Map`](vstd::map::Map) from name to address.

use vstd::prelude::*;

verus! {

/// The first address handed to a previously-unseen variable name.
pub const FIRST_VARIABLE_ADDR: u16 = 16;

/// The map an association list denotes.
pub open spec fn entries_map(s: Seq<(String, u16)>) -> Map<Seq<char>, u16>
    decreases s.len(),
{
    if s.len() == 0 {
        Map::empty()
    } else {
        entries_map(s.drop_last()).insert(s.last().0@, s.last().1)
    }
}

/// No two entries of the association list share a name.
pub open spec fn keys_unique(s: Seq<(String, u16)>) -> bool {
    forall|i: int, j: int| 0 <= i < j < s.len() ==> s[i].0@ != s[j].0@
}

/// Appending an entry inserts its binding into the denoted map.
pub broadcast proof fn lemma_entries_map_push(s: Seq<(String, u16)>, e: (String, u16))
    ensures
        #[trigger] entries_map(s.push(e)) == entries_map(s).insert(e.0@, e.1),
{
    assert(s.push(e).drop_last() =~= s);
}

/// In a table without repeated names, every entry's binding is in the
/// denoted map.
pub proof fn lemma_entries_map_index(s: Seq<(String, u16)>, i: int)
    requires
        keys_unique(s),
        0 <= i < s.len(),
    ensures
        entries_map(s).contains_key(s[i].0@),
        entries_map(s)[s[i].0@] == s[i].1,
    decreases s.len(),
{
    if i < s.len() - 1 {
        lemma_entries_map_index(s.drop_last(), i);
    }
}

/// A name on no entry is not in the denoted map.
pub proof fn lemma_entries_map_absent(s: Seq<(String, u16)>, k: Seq<char>)
    requires
        forall|j: int| 0 <= j < s.len() ==> s[j].0@ != k,
    ensures
        !entries_map(s).contains_key(k),
    decreases s.len(),
{
    if s.len() > 0 {
        lemma_entries_map_absent(s.drop_last(), k);
    }
}

/// Overwriting the entry that holds a name rebinds that name and nothing
/// else.
pub proof fn lemma_entries_map_update(s: Seq<(String, u16)>, i: int, key: String, v: u16)
    requires
        keys_unique(s),
        0 <= i < s.len(),
        key@ == s[i].0@,
    ensures
        entries_map(s.update(i, (key, v))) == entries_map(s).insert(key@, v),
    decreases s.len(),
{
    let t = s.update(i, (key, v));
    if i == s.len() - 1 {
        assert(t.drop_last() =~= s.drop_last());
        assert(entries_map(t) =~= entries_map(s).insert(key@, v));
    } else {
        lemma_entries_map_update(s.drop_last(), i, key, v);
        assert(t.drop_last() =~= s.drop_last().update(i, (key, v)));
        assert(t.last() == s.last());
        assert(entries_map(t) =~= entries_map(s).insert(key@, v));
    }
}

/// What resolving a name against a table does: a bound name keeps its
/// address and moves nothing; an unseen name is bound to the cursor's
/// address and the cursor advances by one.
pub open spec fn resolve_spec(m: Map<Seq<char>, u16>, next: u16, name: Seq<char>) -> (
    u16,
    Map<Seq<char>, u16>,
    u16,
) {
    if m.contains_key(name) {
        (m[name], m, next)
    } else {
        (next, m.insert(name, next), (next + 1) as u16)
    }
}

/// The architecture-defined bindings every assembly run starts from.
pub open spec fn predefined_map() -> Map<Seq<char>, u16> {
    Map::empty().insert("SP"@, 0).insert("LCL"@, 1).insert("ARG"@, 2).insert("THIS"@, 3).insert(
        "THAT"@,
        4,
    ).insert("R0"@, 0).insert("R1"@, 1).insert("R2"@, 2).insert("R3"@, 3).insert("R4"@, 4).insert(
        "R5"@,
        5,
    ).insert("R6"@, 6).insert("R7"@, 7).insert("R8"@, 8).insert("R9"@, 9).insert("R10"@, 10).insert(
        "R11"@,
        11,
    ).insert("R12"@, 12).insert("R13"@, 13).insert("R14"@, 14).insert("R15"@, 15).insert(
        "SCREEN"@,
        16384,
    ).insert("KBD"@, 24576)
}

/// Law: the seeded table binds every architecture-defined name to its fixed
/// address.
pub proof fn lemma_predefined_bindings()
    ensures
        predefined_map()["SP"@] == 0,
        predefined_map()["LCL"@] == 1,
        predefined_map()["ARG"@] == 2,
        predefined_map()["THIS"@] == 3,
        predefined_map()["THAT"@] == 4,
        predefined_map()["R0"@] == 0,
        predefined_map()["R1"@] == 1,
        predefined_map()["R2"@] == 2,
        predefined_map()["R3"@] == 3,
        predefined_map()["R4"@] == 4,
        predefined_map()["R5"@] == 5,
        predefined_map()["R6"@] == 6,
        predefined_map()["R7"@] == 7,
        predefined_map()["R8"@] == 8,
        predefined_map()["R9"@] == 9,
        predefined_map()["R10"@] == 10,
        predefined_map()["R11"@] == 11,
        predefined_map()["R12"@] == 12,
        predefined_map()["R13"@] == 13,
        predefined_map()["R14"@] == 14,
        predefined_map()["R15"@] == 15,
        predefined_map()["SCREEN"@] == 16384,
        predefined_map()["KBD"@] == 24576,
{
    reveal_strlit("SP");
    reveal_strlit("LCL");
    reveal_strlit("ARG");
    reveal_strlit("THIS");
    reveal_strlit("THAT");
    reveal_strlit("R0");
    reveal_strlit("R1");
    reveal_strlit("R2");
    reveal_strlit("R3");
    reveal_strlit("R4");
    reveal_strlit("R5");
    reveal_strlit("R6");
    reveal_strlit("R7");
    reveal_strlit("R8");
    reveal_strlit("R9");
    reveal_strlit("R10");
    reveal_strlit("R11");
    reveal_strlit("R12");
    reveal_strlit("R13");
    reveal_strlit("R14");
    reveal_strlit("R15");
    reveal_strlit("SCREEN");
    reveal_strlit("KBD");
    assert("SP"@ =~= seq!['S', 'P']);
    assert("LCL"@ =~= seq!['L', 'C', 'L']);
    assert("ARG"@ =~= seq!['A', 'R', 'G']);
    assert("THIS"@ =~= seq!['T', 'H', 'I', 'S']);
    assert("THAT"@ =~= seq!['T', 'H', 'A', 'T']);
    assert("R0"@ =~= seq!['R', '0']);
    assert("R1"@ =~= seq!['R', '1']);
    assert("R2"@ =~= seq!['R', '2']);
    assert("R3"@ =~= seq!['R', '3']);
    assert("R4"@ =~= seq!['R', '4']);
    assert("R5"@ =~= seq!['R', '5']);
    assert("R6"@ =~= seq!['R', '6']);
    assert("R7"@ =~= seq!['R', '7']);
    assert("R8"@ =~= seq!['R', '8']);
    assert("R9"@ =~= seq!['R', '9']);
    assert("R10"@ =~= seq!['R', '1', '0']);
    assert("R11"@ =~= seq!['R', '1', '1']);
    assert("R12"@ =~= seq!['R', '1', '2']);
    assert("R13"@ =~= seq!['R', '1', '3']);
    assert("R14"@ =~= seq!['R', '1', '4']);
    assert("R15"@ =~= seq!['R', '1', '5']);
    assert("SCREEN"@ =~= seq!['S', 'C', 'R', 'E', 'E', 'N']);
    assert("KBD"@ =~= seq!['K', 'B', 'D']);
}

/// Law: resolving a name the table already binds returns its bound address
/// and changes neither the table nor the variable cursor.  In particular
/// every predefined name keeps its fixed architecture address.
pub proof fn lemma_bound_name_resolution(m: Map<Seq<char>, u16>, next: u16, name: Seq<char>)
    requires
        m.contains_key(name),
    ensures
        resolve_spec(m, next, name) == (m[name], m, next),
{
}

/// Law: a previously-unseen name is assigned the cursor's current address
/// and the cursor advances by exactly one; resolving the same name a second
/// time returns the same address and moves neither the table nor the
/// cursor.
pub proof fn lemma_fresh_name_resolution(m: Map<Seq<char>, u16>, next: u16, name: Seq<char>)
    requires
        !m.contains_key(name),
        next < u16::MAX,
    ensures
        ({
            let (addr, m1, next1) = resolve_spec(m, next, name);
            &&& addr == next
            &&& m1 == m.insert(name, next)
            &&& next1 == next + 1
            &&& resolve_spec(m1, next1, name) == (addr, m1, next1)
        }),
{
}

/// Law: resolving a name never disturbs an existing binding — once a name
/// has an address, it keeps that address through every later resolution.
pub proof fn lemma_resolution_preserves_bindings(
    m: Map<Seq<char>, u16>,
    next: u16,
    name: Seq<char>,
    other: Seq<char>,
)
    requires
        m.contains_key(other),
    ensures
        ({
            let (_, m1, _) = resolve_spec(m, next, name);
            m1.contains_key(other) && m1[other] == m[other]
        }),
{
}

/// The symbol table of one assembly run.
pub struct Symbols {
    /// Name-to-address bindings; no name repeats.
    pub table: Vec<(String, u16)>,
    /// The next address to hand to a previously-unseen variable name.
    pub next_addr: u16,
}

/// Find the entry holding a name, if any.
fn find_index(table: &Vec<(String, u16)>, name: &str) -> (r: Option<usize>)
    ensures
        match r {
            Some(i) => i < table@.len() && table@[i as int].0@ == name@,
            None => forall|j: int| 0 <= j < table@.len() ==> table@[j].0@ != name@,
        },
{
    let key = String::from_str(name);
    let n = table.len();
    let mut i: usize = 0;
    while i < n
        invariant
            i <= n,
            n == table@.len(),
            key@ == name@,
            forall|j: int| 0 <= j < i ==> table@[j].0@ != name@,
        decreases n - i,
    {
        if table[i].0 == key {
            return Some(i);
        }
        i += 1;
    }
    None
}

impl Symbols {
    /// The map from name to address this table holds.
    pub open spec fn map(&self) -> Map<Seq<char>, u16> {
        entries_map(self.table@)
    }

    /// Well-formed: no name is bound twice.
    pub open spec fn wf(&self) -> bool {
        keys_unique(self.table@)
    }

    /// Build a table seeded with the architecture-defined bindings, the
    /// variable cursor at the first address after the register names.
    pub fn new() -> (s: Symbols)
        ensures
            s.wf(),
            s.map() == predefined_map(),
            s.next_addr == FIRST_VARIABLE_ADDR,
    {
        let mut s = Symbols { table: Vec::new(), next_addr: FIRST_VARIABLE_ADDR };
        proof {
            assert(s.map() =~= Map::<Seq<char>, u16>::empty());
        }
        s.declare_label("SP", 0);
        s.declare_label("LCL", 1);
        s.declare_label("ARG", 2);
        s.declare_label("THIS", 3);
        s.declare_label("THAT", 4);
        s.declare_label("R0", 0);
        s.declare_label("R1", 1);
        s.declare_label("R2", 2);
        s.declare_label("R3", 3);
        s.declare_label("R4", 4);
        s.declare_label("R5", 5);
        s.declare_label("R6", 6);
        s.declare_label("R7", 7);
        s.declare_label("R8", 8);
        s.declare_label("R9", 9);
        s.declare_label("R10", 10);
        s.declare_label("R11", 11);
        s.declare_label("R12", 12);
        s.declare_label("R13", 13);
        s.declare_label("R14", 14);
        s.declare_label("R15", 15);
        s.declare_label("SCREEN", 16384);
        s.declare_label("KBD", 24576);
        s
    }

    /// Return the address a name is bound to; bind a previously-unseen name
    /// to the next free variable address first, advancing the cursor.
    /// Always succeeds: every name gets an address.
    pub fn lookup_or_allocate(&mut self, name: &str) -> (r: u16)
        requires
            old(self).wf(),
            old(self).next_addr < u16::MAX,
        ensures
            final(self).wf(),
            (r, final(self).map(), final(self).next_addr) == resolve_spec(
                old(self).map(),
                old(self).next_addr,
                name@,
            ),
    {
        match find_index(&self.table, name) {
            Some(i) => {
                proof {
                    lemma_entries_map_index(self.table@, i as int);
                }
                self.table[i].1
            },
            None => {
                proof {
                    lemma_entries_map_absent(self.table@, name@);
                }
                let addr = self.next_addr;
                let ghost t0 = self.table@;
                self.table.push((String::from_str(name), addr));
                self.next_addr = addr + 1;
                proof {
                    lemma_entries_map_push(t0, self.table@.last());
                    assert(self.table@.drop_last() =~= t0);
                }
                addr
            },
        }
    }

    /// Bind a name to an address unconditionally, overwriting any prior
    /// binding (a deliberate permissiveness of the table: a duplicate label, or
    /// a label sharing a name with an already-resolved variable, silently
    /// wins).  The variable cursor does not move.
    pub fn declare_label(&mut self, name: &str, address: u16)
        requires
            old(self).wf(),
        ensures
            final(self).wf(),
            final(self).map() == old(self).map().insert(name@, address),
            final(self).next_addr == old(self).next_addr,
    {
        let key = String::from_str(name);
        match find_index(&self.table, name) {
            Some(i) => {
                let ghost t0 = self.table@;
                self.table.set(i, (key, address));
                proof {
                    lemma_entries_map_update(t0, i as int, (key, address).0, address);
                }
            },
            None => {
                proof {
                    lemma_entries_map_absent(self.table@, name@);
                }
                let ghost t0 = self.table@;
                self.table.push((key, address));
                proof {
                    lemma_entries_map_push(t0, self.table@.last());
                    assert(self.table@.drop_last() =~= t0);
                }
            },
        }
    }
}

} // verus!
