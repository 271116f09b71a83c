use vstd::prelude::*;

use crate::types::{Contig, GContig};

verus! {

/// First entry of `table` whose name is `name`, if any.
pub open spec fn spec_lookup(table: Seq<GContig>, name: Seq<u8>) -> Option<int>
    decreases table.len(),
{
    if table.len() == 0 {
        None
    } else if table[0].name == name {
        Some(0int)
    } else {
        match spec_lookup(table.drop_first(), name) {
            Some(i) => Some(i + 1),
            None => None,
        }
    }
}

pub proof fn lemma_lookup_props(table: Seq<GContig>, name: Seq<u8>)
    ensures
        match spec_lookup(table, name) {
            Some(i) => 0 <= i < table.len() && table[i].name == name && forall|j: int|
                0 <= j < i ==> (#[trigger] table[j]).name != name,
            None => forall|j: int| 0 <= j < table.len() ==> (#[trigger] table[j]).name != name,
        },
    decreases table.len(),
{
    if table.len() > 0 {
        lemma_lookup_props(table.drop_first(), name);
        assert(forall|j: int|
            0 <= j < table.len() - 1 ==> #[trigger] table.drop_first()[j] == table[j + 1]);
        if table[0].name != name {
            match spec_lookup(table.drop_first(), name) {
                Some(i) => {
                    assert forall|j: int| 0 <= j < i + 1 implies (#[trigger] table[j]).name
                        != name by {
                        if j > 0 {
                            assert(table.drop_first()[j - 1] == table[j]);
                        }
                    }
                },
                None => {
                    assert forall|j: int| 0 <= j < table.len() implies (#[trigger] table[j]).name
                        != name by {
                        if j > 0 {
                            assert(table.drop_first()[j - 1] == table[j]);
                        }
                    }
                },
            }
        }
    }
}

/// First rewrite rule of `pmap` whose left side is a prefix of `name`,
/// applied to `name`: the prefix is replaced by the rule's right side.
/// Without a matching rule the name is unchanged.
pub open spec fn spec_apply_prefix_map(pmap: Seq<(Seq<u8>, Seq<u8>)>, name: Seq<u8>) -> Seq<u8>
    decreases pmap.len(),
{
    if pmap.len() == 0 {
        name
    } else if pmap[0].0.is_prefix_of(name) {
        pmap[0].1 + name.skip(pmap[0].0.len() as int)
    } else {
        spec_apply_prefix_map(pmap.drop_first(), name)
    }
}

/// The interned contig table plus the contig-name rewrite rules.
/// The table is the sole authority for contigs: records naming a contig
/// outside it are skipped.
pub struct ContigRegistry {
    pub contigs: Vec<Contig>,
    pub prefix_map: Vec<(Vec<u8>, Vec<u8>)>,
}

impl ContigRegistry {
    pub open spec fn table(self) -> Seq<GContig> {
        self.contigs.deep_view()
    }

    pub open spec fn pmap(self) -> Seq<(Seq<u8>, Seq<u8>)> {
        Seq::new(self.prefix_map@.len(), |i: int| (self.prefix_map@[i].0@, self.prefix_map@[i].1@))
    }

    pub open spec fn wf(self) -> bool {
        forall|i: int| 0 <= i < self.table().len() ==> (#[trigger] self.table()[i]).wf()
    }

    pub fn new(contigs: Vec<Contig>, prefix_map: Vec<(Vec<u8>, Vec<u8>)>) -> (r: ContigRegistry)
        ensures
            r.contigs@ == contigs@,
            r.prefix_map@ == prefix_map@,
    {
        ContigRegistry { contigs, prefix_map }
    }

    pub fn len(&self) -> (n: usize)
        ensures
            n == self.table().len(),
    {
        self.contigs.len()
    }

    /// Index of the contig named `name`, after the rewrite rules are applied.
    pub fn lookup(&self, name: &Vec<u8>) -> (r: Option<usize>)
        ensures
            match r {
                Some(i) => Some(i as int) == spec_lookup(
                    self.table(),
                    spec_apply_prefix_map(self.pmap(), name@),
                ),
                None => spec_lookup(
                    self.table(),
                    spec_apply_prefix_map(self.pmap(), name@),
                ) is None,
            },
    {
        let mapped = self.apply_prefix_map(name);
        let ghost target = spec_apply_prefix_map(self.pmap(), name@);
        proof {
            assert(self.table().skip(0) =~= self.table());
        }
        let mut i: usize = 0;
        while i < self.contigs.len()
            invariant
                i <= self.table().len(),
                mapped@ == target,
                target == spec_apply_prefix_map(self.pmap(), name@),
                spec_lookup(self.table(), target) == match spec_lookup(
                    self.table().skip(i as int),
                    target,
                ) {
                    Some(k) => Some(k + i),
                    None => None::<int>,
                },
            decreases self.table().len() - i,
        {
            proof {
                assert(self.table().skip(i as int).drop_first() =~= self.table().skip(i + 1));
                assert(self.table().skip(i as int)[0] == self.table()[i as int]);
            }
            if &self.contigs[i].name == &mapped {
                proof {
                    assert(self.contigs@[i as int].name@ =~= mapped@);
                    assert(spec_lookup(self.table().skip(i as int), target) == Some(0int));
                    assert(spec_lookup(self.table(), target) == Some(i as int));
                    assert(target == spec_apply_prefix_map(self.pmap(), name@));
                }
                return Some(i);
            }
            assert(self.table()[i as int].name != target);
            i = i + 1;
        }
        proof {
            assert(self.table().skip(i as int) =~= Seq::<GContig>::empty());
        }
        None
    }

    /// Apply the first matching rewrite rule to a contig name.
    fn apply_prefix_map(&self, name: &Vec<u8>) -> (r: Vec<u8>)
        ensures
            r@ == spec_apply_prefix_map(self.pmap(), name@),
    {
        let mut k: usize = 0;
        proof {
            assert(self.pmap().skip(0) =~= self.pmap());
        }
        while k < self.prefix_map.len()
            invariant
                k <= self.pmap().len(),
                spec_apply_prefix_map(self.pmap(), name@) == spec_apply_prefix_map(
                    self.pmap().skip(k as int),
                    name@,
                ),
            decreases self.pmap().len() - k,
        {
            proof {
                assert(self.pmap().skip(k as int).drop_first() =~= self.pmap().skip(k + 1));
                assert(self.pmap().skip(k as int)[0] == self.pmap()[k as int]);
            }
            let (from, to) = (&self.prefix_map[k].0, &self.prefix_map[k].1);
            if is_prefix(from, name) {
                let mut out: Vec<u8> = Vec::new();
                crate::bytes::push_bytes(&mut out, to);
                let mut j: usize = from.len();
                while j < name.len()
                    invariant
                        from@.len() <= j <= name@.len(),
                        out@ == to@ + name@.subrange(from@.len() as int, j as int),
                    decreases name@.len() - j,
                {
                    out.push(name[j]);
                    assert(out@ =~= to@ + name@.subrange(from@.len() as int, j + 1));
                    j = j + 1;
                }
                assert(out@ =~= to@ + name@.skip(from@.len() as int));
                return out;
            }
            k = k + 1;
        }
        proof {
            assert(self.pmap().skip(k as int) =~= Seq::<(Seq<u8>, Seq<u8>)>::empty());
        }
        let mut out: Vec<u8> = Vec::new();
        crate::bytes::push_bytes(&mut out, name);
        assert(out@ =~= name@);
        out
    }
}

/// Does `p` start `s`?
pub fn is_prefix(p: &Vec<u8>, s: &Vec<u8>) -> (r: bool)
    ensures
        r == p@.is_prefix_of(s@),
{
    if p.len() > s.len() {
        assert(!p@.is_prefix_of(s@));
        return false;
    }
    let mut i: usize = 0;
    while i < p.len()
        invariant
            i <= p@.len() <= s@.len(),
            forall|j: int| 0 <= j < i ==> p@[j] == s@[j],
        decreases p@.len() - i,
    {
        if p[i] != s[i] {
            assert(!p@.is_prefix_of(s@));
            return false;
        }
        i = i + 1;
    }
    assert(p@ =~= s@.take(p@.len() as int));
    true
}

} // verus!
