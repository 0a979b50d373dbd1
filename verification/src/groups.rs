//! CPU time by group name.

use vstd::prelude::*;

use crate::seconds::CpuSeconds;

verus! {

/// One entry of a [`GroupTotals`] by its value.
pub open spec fn entry_view(entry: (String, CpuSeconds)) -> (Seq<char>, real) {
    (entry.0@, entry.1@)
}

/// Whether no name occurs twice.
pub open spec fn distinct_names(entries: Seq<(String, CpuSeconds)>) -> bool {
    forall|i: int, j: int|
        0 <= i < j < entries.len() ==> (#[trigger] entries[i]).0@ != (#[trigger] entries[j]).0@
}

/// The mapping that a sequence of entries stands for.
pub open spec fn entries_map(entries: Seq<(String, CpuSeconds)>) -> Map<Seq<char>, real>
    decreases entries.len(),
{
    if entries.len() == 0 {
        Map::empty()
    } else {
        entries_map(entries.drop_last()).insert(entries.last().0@, entries.last().1@)
    }
}

proof fn lemma_entries_map(entries: Seq<(String, CpuSeconds)>)
    requires
        distinct_names(entries),
    ensures
        entries_map(entries).dom().finite(),
        entries_map(entries).dom().len() == entries.len(),
        forall|i: int|
            0 <= i < entries.len() ==> entries_map(entries).contains_key(
                (#[trigger] entries[i]).0@,
            ) && entries_map(entries)[entries[i].0@] == entries[i].1@,
        forall|name: Seq<char>| #[trigger]
            entries_map(entries).contains_key(name) ==> exists|i: int|
                0 <= i < entries.len() && (#[trigger] entries[i]).0@ == name,
    decreases entries.len(),
{
    if entries.len() > 0 {
        let init = entries.drop_last();
        assert forall|i: int, j: int| 0 <= i < j < init.len() implies (#[trigger] init[i]).0@ != (
        #[trigger] init[j]).0@ by {
            assert(init[i] == entries[i] && init[j] == entries[j]);
        }
        lemma_entries_map(init);
        let m = entries_map(init);
        let last = entries.last();
        assert(!m.contains_key(last.0@)) by {
            if m.contains_key(last.0@) {
                let i = choose|i: int| 0 <= i < init.len() && (#[trigger] init[i]).0@ == last.0@;
                assert(entries[i] == init[i]);
                assert(entries[entries.len() - 1] == last);
            }
        }
        assert forall|i: int| 0 <= i < entries.len() implies entries_map(entries).contains_key(
            (#[trigger] entries[i]).0@,
        ) && entries_map(entries)[entries[i].0@] == entries[i].1@ by {
            if i < init.len() {
                assert(init[i] == entries[i]);
                assert(entries[entries.len() - 1] == last);
            }
        }
        assert forall|name: Seq<char>| #[trigger]
            entries_map(entries).contains_key(name) implies exists|i: int|
            0 <= i < entries.len() && (#[trigger] entries[i]).0@ == name by {
            if name == last.0@ {
                assert(entries[entries.len() - 1].0@ == name);
            } else {
                assert(m.contains_key(name));
                let i = choose|i: int| 0 <= i < init.len() && (#[trigger] init[i]).0@ == name;
                assert(entries[i].0@ == name);
            }
        }
    }
}

/// The mapping of the first entries with one entry more: it has a name that was not there.
proof fn lemma_entries_map_next(entries: Seq<(String, CpuSeconds)>, i: int)
    requires
        distinct_names(entries),
        0 <= i < entries.len(),
    ensures
        entries_map(entries.take(i)).dom().finite(),
        !entries_map(entries.take(i)).contains_key(entries[i].0@),
        entries_map(entries.take(i + 1)) == entries_map(entries.take(i)).insert(
            entries[i].0@,
            entries[i].1@,
        ),
{
    let now = entries.take(i);
    assert(entries.take(i + 1).drop_last() =~= now);
    lemma_entries_map(now);
    if entries_map(now).contains_key(entries[i].0@) {
        let j = choose|j: int| 0 <= j < now.len() && (#[trigger] now[j]).0@ == entries[i].0@;
        assert(entries[j] == now[j]);
    }
}

/// The mapping of a sequence of entries in which the entry at `i` was replaced by one of the same
/// name.
proof fn lemma_entries_map_update(
    entries: Seq<(String, CpuSeconds)>,
    i: int,
    entry: (String, CpuSeconds),
)
    requires
        distinct_names(entries),
        0 <= i < entries.len(),
        entry.0@ == entries[i].0@,
    ensures
        distinct_names(entries.update(i, entry)),
        entries_map(entries.update(i, entry)) == entries_map(entries).insert(entry.0@, entry.1@),
{
    let after = entries.update(i, entry);
    assert forall|j: int, k: int| 0 <= j < k < after.len() implies (#[trigger] after[j]).0@ != (
    #[trigger] after[k]).0@ by {
        assert(after[j].0@ == entries[j].0@ && after[k].0@ == entries[k].0@);
    }
    lemma_entries_map(entries);
    lemma_entries_map(after);
    let m = entries_map(entries);
    let n = entries_map(after);
    let target = m.insert(entry.0@, entry.1@);
    assert(after[i].0@ == entry.0@);
    assert forall|name: Seq<char>| #[trigger] n.dom().contains(name) implies target.dom().contains(
        name,
    ) && n[name] == target[name] by {
        assert(n.contains_key(name));
        let j = choose|j: int| 0 <= j < after.len() && (#[trigger] after[j]).0@ == name;
        assert(entries[j].0@ == name);
        if j != i {
            assert(after[j] == entries[j]);
        }
    }
    assert forall|name: Seq<char>| #[trigger] target.dom().contains(name) implies n.dom().contains(
        name,
    ) by {
        if name != entry.0@ {
            assert(m.contains_key(name));
            let j = choose|j: int| 0 <= j < entries.len() && (#[trigger] entries[j]).0@ == name;
            assert(after[j].0@ == name);
        }
    }
    assert(n =~= target);
}

/// CPU time by group name. No name occurs twice.
#[derive(Debug)]
pub struct GroupTotals {
    entries: Vec<(String, CpuSeconds)>,
}

impl View for GroupTotals {
    type V = Map<Seq<char>, real>;

    closed spec fn view(&self) -> Map<Seq<char>, real> {
        entries_map(self.entries@)
    }
}

/// The mapping with `seconds` more under `name`. A name that was not there counts as zero.
pub open spec fn with_added(
    totals: Map<Seq<char>, real>,
    name: Seq<char>,
    seconds: real,
) -> Map<Seq<char>, real> {
    totals.insert(name, amount(totals, name) + seconds)
}

/// The seconds under a name; zero where the name is not there.
pub open spec fn amount(totals: Map<Seq<char>, real>, name: Seq<char>) -> real {
    if totals.contains_key(name) {
        totals[name]
    } else {
        0 as real
    }
}

/// Two mappings added up, name by name.
pub open spec fn merged(
    a: Map<Seq<char>, real>,
    b: Map<Seq<char>, real>,
) -> Map<Seq<char>, real> {
    Map::new(
        |name: Seq<char>| a.contains_key(name) || b.contains_key(name),
        |name: Seq<char>| amount(a, name) + amount(b, name),
    )
}

/// The sum of all amounts of a finite mapping.
pub open spec fn map_total(totals: Map<Seq<char>, real>) -> real
    decreases totals.dom().len(),
{
    if totals.dom().finite() && totals.dom().len() > 0 {
        let name = totals.dom().choose();
        totals[name] + map_total(totals.remove(name))
    } else {
        0 as real
    }
}

/// The sum of all amounts does not depend on which one is counted first.
pub proof fn lemma_map_total_remove(totals: Map<Seq<char>, real>, name: Seq<char>)
    requires
        totals.dom().finite(),
        totals.contains_key(name),
    ensures
        map_total(totals) == totals[name] + map_total(totals.remove(name)),
    decreases totals.dom().len(),
{
    let first = totals.dom().choose();
    assert(totals.dom().contains(name));
    assert(totals.dom().len() > 0);
    if first != name {
        lemma_map_total_remove(totals.remove(first), name);
        lemma_map_total_remove(totals.remove(name), first);
        assert(totals.remove(first).remove(name) =~= totals.remove(name).remove(first));
    }
}

/// Time added to a group is added to the sum of all groups.
pub proof fn lemma_map_total_added(
    totals: Map<Seq<char>, real>,
    name: Seq<char>,
    seconds: real,
)
    requires
        totals.dom().finite(),
    ensures
        with_added(totals, name, seconds).dom().finite(),
        map_total(with_added(totals, name, seconds)) == map_total(totals) + seconds,
{
    let after = with_added(totals, name, seconds);
    lemma_map_total_remove(after, name);
    if totals.contains_key(name) {
        lemma_map_total_remove(totals, name);
        assert(after.remove(name) =~= totals.remove(name));
    } else {
        assert(after.remove(name) =~= totals);
    }
}

/// Adding two accounts up loses no time: the sum over all groups of the merged account is the sum
/// over all groups of the one and of the other.
pub proof fn law_merge_keeps_total(a: Map<Seq<char>, real>, b: Map<Seq<char>, real>)
    requires
        a.dom().finite(),
        b.dom().finite(),
    ensures
        merged(a, b).dom().finite(),
        map_total(merged(a, b)) == map_total(a) + map_total(b),
    decreases b.dom().len(),
{
    if b.dom().len() == 0 {
        assert(b.dom() =~= Set::empty());
        assert(forall|name: Seq<char>| !b.contains_key(name)) by {
            assert(forall|name: Seq<char>| !b.dom().contains(name));
        }
        assert(merged(a, b) =~= a);
    } else {
        let name = b.dom().choose();
        let moved = with_added(a, name, b[name]);
        lemma_map_total_added(a, name, b[name]);
        lemma_map_total_remove(b, name);
        law_merge_keeps_total(moved, b.remove(name));
        assert(merged(a, b) =~= merged(moved, b.remove(name)));
    }
}

/// Whether a list holds the groups of a mapping, each once, in falling order of their time.
pub open spec fn is_ranking(
    list: Seq<(String, CpuSeconds)>,
    totals: Map<Seq<char>, real>,
) -> bool {
    &&& totals.dom().finite()
    &&& list.len() == totals.dom().len()
    &&& distinct_names(list)
    &&& forall|i: int|
        0 <= i < list.len() ==> totals.contains_key((#[trigger] list[i]).0@)
            && totals[list[i].0@] == list[i].1@
    &&& falling(list)
}

/// Whether no amount is smaller than one that comes after it.
pub open spec fn falling(list: Seq<(String, CpuSeconds)>) -> bool {
    forall|i: int, j: int|
        0 <= i < j < list.len() ==> (#[trigger] list[i]).1@ >= (#[trigger] list[j]).1@
}

impl GroupTotals {
    #[verifier::type_invariant]
    spec fn no_name_twice(&self) -> bool {
        distinct_names(self.entries@)
    }

    pub fn new() -> (res: Self)
        ensures
            res@ == Map::<Seq<char>, real>::empty(),
    {
        GroupTotals { entries: Vec::new() }
    }

    /// The number of groups.
    pub fn len(&self) -> (res: usize)
        ensures
            self@.dom().finite(),
            res == self@.dom().len(),
    {
        proof {
            use_type_invariant(self);
            lemma_entries_map(self.entries@);
        }
        self.entries.len()
    }

    /// Whether there is no group.
    pub fn is_empty(&self) -> (res: bool)
        ensures
            res == (self@ == Map::<Seq<char>, real>::empty()),
    {
        proof {
            use_type_invariant(self);
            lemma_entries_map(self.entries@);
            if self.entries@.len() > 0 {
                assert(self@.contains_key(self.entries@[0].0@));
            } else {
                assert(self@ =~= Map::<Seq<char>, real>::empty());
            }
        }
        self.entries.len() == 0
    }

    fn position(&self, name: &str) -> (res: Option<usize>)
        ensures
            res is Some <==> self@.contains_key(name@),
            res matches Some(i) ==> i < self.entries@.len() && self.entries@[i as int].0@ == name@
                && self.entries@[i as int].1@ == self@[name@],
    {
        proof {
            use_type_invariant(self);
            lemma_entries_map(self.entries@);
        }
        let wanted: String = name.to_owned();
        let mut i: usize = 0;
        while i < self.entries.len()
            invariant
                i <= self.entries@.len(),
                wanted@ == name@,
                distinct_names(self.entries@),
                forall|j: int| 0 <= j < i ==> (#[trigger] self.entries@[j]).0@ != name@,
            decreases self.entries@.len() - i,
        {
            if self.entries[i].0 == wanted {
                proof {
                    lemma_entries_map(self.entries@);
                }
                return Some(i);
            }
            i = i + 1;
        }
        None
    }

    /// Whether there is a group of that name.
    pub fn contains_key(&self, name: &str) -> (res: bool)
        ensures
            res == self@.contains_key(name@),
    {
        self.position(name).is_some()
    }

    /// The CPU time of a group.
    pub fn get(&self, name: &str) -> (res: Option<&CpuSeconds>)
        ensures
            res is Some <==> self@.contains_key(name@),
            res matches Some(seconds) ==> seconds@ == self@[name@],
    {
        match self.position(name) {
            Some(i) => Some(&self.entries[i].1),
            None => None,
        }
    }

    /// Sets the CPU time of a group, whether or not the group was there.
    pub fn insert(&mut self, name: String, seconds: CpuSeconds)
        ensures
            final(self)@ == old(self)@.insert(name@, seconds@),
    {
        let position: Option<usize> = self.position(name.as_str());
        proof {
            use_type_invariant(&*self);
            lemma_entries_map(self.entries@);
        }
        let mut entries: Vec<(String, CpuSeconds)> = Vec::new();
        std::mem::swap(&mut entries, &mut self.entries);
        let ghost before = entries@;
        match position {
            Some(i) => {
                proof {
                    lemma_entries_map_update(before, i as int, (name, seconds));
                }
                entries.set(i, (name, seconds));
            },
            None => {
                let ghost entry = (name, seconds);
                entries.push((name, seconds));
                proof {
                    assert(entries@ == before.push(entry));
                    assert(entries@.drop_last() =~= before);
                    assert forall|j: int, k: int| 0 <= j < k < entries@.len() implies (
                    #[trigger] entries@[j]).0@ != (#[trigger] entries@[k]).0@ by {
                        if k == before.len() {
                            assert(before[j] == entries@[j]);
                        } else {
                            assert(before[j] == entries@[j] && before[k] == entries@[k]);
                        }
                    }
                }
            },
        }
        self.entries = entries;
    }

    /// Adds CPU time to a group. A group that was not there starts at zero.
    pub fn add_time(&mut self, name: String, seconds: &CpuSeconds)
        ensures
            final(self)@ == with_added(old(self)@, name@, seconds@),
    {
        let sum: CpuSeconds = match self.get(name.as_str()) {
            Some(before) => before.plus(seconds),
            None => CpuSeconds::zero().plus(seconds),
        };
        self.insert(name, sum);
    }

    /// Adds the CPU time of each group of `other` to the group of the same name.
    pub fn absorb(&mut self, other: &GroupTotals)
        ensures
            final(self)@ == merged(old(self)@, other@),
    {
        proof {
            use_type_invariant(other);
            assert(merged(self@, entries_map(other.entries@.take(0))) =~= self@);
        }
        let mut i: usize = 0;
        while i < other.entries.len()
            invariant
                i <= other.entries@.len(),
                distinct_names(other.entries@),
                self@ == merged(old(self)@, entries_map(other.entries@.take(i as int))),
            decreases other.entries@.len() - i,
        {
            proof {
                let next = other.entries@.take(i + 1);
                let entry = other.entries@[i as int];
                lemma_entries_map_next(other.entries@, i as int);
                assert(merged(old(self)@, entries_map(next)) =~= with_added(
                    self@,
                    entry.0@,
                    entry.1@,
                ));
            }
            self.add_time(other.entries[i].0.clone(), &other.entries[i].1);
            i = i + 1;
        }
        assert(other.entries@.take(other.entries@.len() as int) =~= other.entries@);
    }

    /// The CPU time of all groups together.
    pub fn total(&self) -> (res: CpuSeconds)
        ensures
            res@ == map_total(self@),
    {
        proof {
            use_type_invariant(self);
        }
        let mut sum: CpuSeconds = CpuSeconds::zero();
        let mut i: usize = 0;
        while i < self.entries.len()
            invariant
                i <= self.entries@.len(),
                distinct_names(self.entries@),
                sum@ == map_total(entries_map(self.entries@.take(i as int))),
            decreases self.entries@.len() - i,
        {
            proof {
                let now = self.entries@.take(i as int);
                let next = self.entries@.take(i + 1);
                let entry = self.entries@[i as int];
                lemma_entries_map_next(self.entries@, i as int);
                lemma_map_total_added(entries_map(now), entry.0@, entry.1@);
                assert(entries_map(next) =~= with_added(entries_map(now), entry.0@, entry.1@));
            }
            sum = sum.plus(&self.entries[i].1);
            i = i + 1;
        }
        assert(self.entries@.take(self.entries@.len() as int) =~= self.entries@);
        sum
    }

    /// The groups in falling order of their CPU time.
    pub fn ranking(&self) -> (res: Vec<(String, CpuSeconds)>)
        ensures
            is_ranking(res@, self@),
    {
        proof {
            use_type_invariant(self);
            lemma_entries_map(self.entries@);
        }
        let mut list: Vec<(String, CpuSeconds)> = Vec::new();
        let mut i: usize = 0;
        while i < self.entries.len()
            invariant
                i <= self.entries@.len(),
                distinct_names(self.entries@),
                list@.len() == i,
                distinct_names(list@),
                falling(list@),
                forall|k: int|
                    0 <= k < list@.len() ==> exists|j: int|
                        0 <= j < i && entry_view(#[trigger] self.entries@[j]) == entry_view(
                            #[trigger] list@[k],
                        ),
            decreases self.entries@.len() - i,
        {
            let entry: (String, CpuSeconds) = (
                self.entries[i].0.clone(),
                self.entries[i].1.clone(),
            );
            let mut at: usize = 0;
            while at < list.len() && !entry.1.exceeds(&list[at].1)
                invariant
                    at <= list@.len(),
                    forall|k: int| 0 <= k < at ==> (#[trigger] list@[k]).1@ >= entry.1@,
                decreases list@.len() - at,
            {
                at = at + 1;
            }
            let ghost before = list@;
            let ghost placed = entry;
            list.insert(at, entry);
            proof {
                lemma_ranked_insert(before, at as int, placed, self.entries@, i as int);
            }
            i = i + 1;
        }
        proof {
            assert forall|k: int| 0 <= k < list@.len() implies self@.contains_key(
                (#[trigger] list@[k]).0@,
            ) && self@[list@[k].0@] == list@[k].1@ by {
                let j = choose|j: int|
                    0 <= j < i && entry_view(#[trigger] self.entries@[j]) == entry_view(list@[k]);
                assert(self.entries@[j].0@ == list@[k].0@);
            }
        }
        list
    }
}

/// A list of entries, falling and without a name twice, stays so when the entry of `source` at
/// `i` takes its place in it.
proof fn lemma_ranked_insert(
    list: Seq<(String, CpuSeconds)>,
    at: int,
    entry: (String, CpuSeconds),
    source: Seq<(String, CpuSeconds)>,
    i: int,
)
    requires
        0 <= at <= list.len(),
        0 <= i < source.len(),
        distinct_names(source),
        distinct_names(list),
        falling(list),
        entry_view(entry) == entry_view(source[i]),
        forall|k: int| 0 <= k < at ==> (#[trigger] list[k]).1@ >= entry.1@,
        at < list.len() ==> entry.1@ > list[at].1@,
        forall|k: int|
            0 <= k < list.len() ==> exists|j: int|
                0 <= j < i && entry_view(#[trigger] source[j]) == entry_view(#[trigger] list[k]),
    ensures
        distinct_names(list.insert(at, entry)),
        falling(list.insert(at, entry)),
        forall|k: int|
            0 <= k < list.len() + 1 ==> exists|j: int|
                0 <= j < i + 1 && entry_view(#[trigger] source[j]) == entry_view(
                    #[trigger] list.insert(at, entry)[k],
                ),
{
    let after = list.insert(at, entry);
    assert(after[at] == entry);
    assert forall|k: int| 0 <= k < list.len() implies (#[trigger] list[k]).0@ != entry.0@ by {
        let j = choose|j: int|
            0 <= j < i && entry_view(#[trigger] source[j]) == entry_view(list[k]);
        assert(source[j].0@ != source[i].0@);
    }
    assert forall|j: int, k: int| 0 <= j < k < after.len() implies (#[trigger] after[j]).0@ != (
    #[trigger] after[k]).0@ && after[j].1@ >= after[k].1@ by {
        let x = if j < at {
            j
        } else {
            j - 1
        };
        let y = if k < at {
            k
        } else {
            k - 1
        };
        if j != at {
            assert(after[j] == list[x]);
        }
        if k != at {
            assert(after[k] == list[y]);
        }
        if j == at {
            if y > at {
                assert(list[at].1@ >= list[y].1@);
            }
        }
    }
    assert forall|k: int| 0 <= k < list.len() + 1 implies exists|j: int|
        0 <= j < i + 1 && entry_view(#[trigger] source[j]) == entry_view(#[trigger] after[k]) by {
        if k == at {
            assert(entry_view(source[i]) == entry_view(after[k]));
        } else {
            let x = if k < at {
                k
            } else {
                k - 1
            };
            assert(after[k] == list[x]);
            let j = choose|j: int|
                0 <= j < i && entry_view(#[trigger] source[j]) == entry_view(list[x]);
            assert(entry_view(source[j]) == entry_view(after[k]));
        }
    }
}

impl Clone for GroupTotals {
    fn clone(&self) -> (res: Self)
        ensures
            res@ == self@,
    {
        let mut copy: GroupTotals = GroupTotals::new();
        copy.absorb(self);
        assert(merged(Map::<Seq<char>, real>::empty(), self@) =~= self@);
        copy
    }
}

} // verus!
