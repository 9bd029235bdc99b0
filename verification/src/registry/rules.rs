//! The access rules that the control service hands out.

use vstd::prelude::*;

use crate::registry::order;
use crate::registry::rows;

verus! {

/// A database row representing an ACL rule.
#[derive(Debug, Clone)]
pub struct AclRuleRow {
    pub id: i64,
    pub priority: i32,
    pub action: String,
    pub src_ip: String,
    pub dst_ip: String,
    pub protocol: String,
    pub src_port: i32,
    pub dst_port: i32,
}

/// The contents of a row of the rule table.
#[verifier::ext_equal]
pub struct RuleEntry {
    pub id: i64,
    pub priority: i32,
    pub action: Seq<char>,
    pub src_ip: Seq<char>,
    pub dst_ip: Seq<char>,
    pub protocol: Seq<char>,
    pub src_port: i32,
    pub dst_port: i32,
}

impl View for AclRuleRow {
    type V = RuleEntry;

    open spec fn view(&self) -> RuleEntry {
        RuleEntry {
            id: self.id,
            priority: self.priority,
            action: self.action@,
            src_ip: self.src_ip@,
            dst_ip: self.dst_ip@,
            protocol: self.protocol@,
            src_port: self.src_port,
            dst_port: self.dst_port,
        }
    }
}

impl AclRuleRow {
    /// A copy of the row.
    fn copied(&self) -> (row: Self)
        ensures
            row@ == self@,
    {
        AclRuleRow {
            id: self.id,
            priority: self.priority,
            action: self.action.clone(),
            src_ip: self.src_ip.clone(),
            dst_ip: self.dst_ip.clone(),
            protocol: self.protocol.clone(),
            src_port: self.src_port,
            dst_port: self.dst_port,
        }
    }
}

/// The rule table.
#[derive(Debug, Clone)]
pub struct AclTable {
    pub rows: Vec<AclRuleRow>,
}

impl View for AclTable {
    type V = Seq<RuleEntry>;

    open spec fn view(&self) -> Seq<RuleEntry> {
        rows::contents(self.rows@)
    }
}

/// No two rules have the same number.
pub open spec fn distinct(table: Seq<RuleEntry>) -> bool {
    forall|i: int, j: int|
        0 <= i < j < table.len() ==> (#[trigger] table[i]).id != (#[trigger] table[j]).id
}

/// Whether there is a rule with that number.
pub open spec fn holds(table: Seq<RuleEntry>, id: i64) -> bool {
    exists|i: int| 0 <= i < table.len() && (#[trigger] table[i]).id == id
}

/// The table after a rule was put: it replaces the one of its number, and is
/// added where there was none.
pub open spec fn upserted(table: Seq<RuleEntry>, rule: RuleEntry) -> Seq<RuleEntry> {
    if holds(table, rule.id) {
        Seq::new(
            table.len(),
            |i: int|
                if table[i].id == rule.id {
                    rule
                } else {
                    table[i]
                },
        )
    } else {
        table.push(rule)
    }
}

/// The rules by their priority.
pub open spec fn priorities(table: Seq<RuleEntry>) -> Seq<Option<i128>> {
    Seq::new(table.len(), |i: int| Some(table[i].priority as i128))
}

/// Rules with another number.
pub open spec fn other_than(id: i64) -> spec_fn(RuleEntry) -> bool {
    |r: RuleEntry| r.id != id
}

impl AclTable {
    /// An empty table.
    pub fn new() -> (table: Self)
        ensures
            table@ == Seq::<RuleEntry>::empty(),
    {
        let table = AclTable { rows: Vec::new() };
        assert(table@ =~= Seq::<RuleEntry>::empty());
        table
    }

    /// Whether no two rules have the same number.
    pub fn is_distinct(&self) -> (ok: bool)
        ensures
            ok == distinct(self@),
    {
        let mut j: usize = 0;
        while j < self.rows.len()
            invariant
                j <= self.rows@.len(),
                forall|a: int, b: int|
                    0 <= a < b < j ==> (#[trigger] self@[a]).id != (#[trigger] self@[b]).id,
            decreases self.rows@.len() - j,
        {
            let mut i: usize = 0;
            while i < j
                invariant
                    i <= j < self.rows@.len(),
                    forall|a: int| 0 <= a < i ==> (#[trigger] self@[a]).id != self@[j as int].id,
                decreases j - i,
            {
                if self.rows[i].id == self.rows[j].id {
                    assert(self@[i as int].id == self@[j as int].id);
                    return false;
                }
                i = i + 1;
            }
            j = j + 1;
        }
        true
    }

    /// List all ACL rules ordered by priority.
    pub fn list_acl_rules(&self) -> (out: Vec<AclRuleRow>)
        ensures
            order::listing(self@, priorities(self@), rows::contents(out@)),
    {
        let mut keys: Vec<Option<i128>> = Vec::new();
        let mut i: usize = 0;
        while i < self.rows.len()
            invariant
                i <= self.rows@.len(),
                keys@.len() == i,
                forall|j: int| 0 <= j < i ==> #[trigger] keys@[j] == priorities(self@)[j],
            decreases self.rows@.len() - i,
        {
            keys.push(Some(self.rows[i].priority as i128));
            i = i + 1;
        }
        assert(keys@ =~= priorities(self@));
        let places: Vec<usize> = order::ordered(&keys);
        let mut out: Vec<AclRuleRow> = Vec::new();
        let mut k: usize = 0;
        while k < places.len()
            invariant
                k <= places@.len(),
                out@.len() == k,
                keys@.len() == self.rows@.len(),
                order::in_order(places@, keys@),
                forall|j: int| 0 <= j < k ==> (#[trigger] out@[j])@ == self@[places@[j] as int],
            decreases places@.len() - k,
        {
            assert(places@[k as int] < keys@.len());
            out.push(self.rows[places[k]].copied());
            k = k + 1;
        }
        assert(rows::contents(out@) =~= Seq::new(
            places@.len(),
            |i: int| self@[places@[i] as int],
        ));
        assert(order::lists(self@, keys@, places@, rows::contents(out@)));
        out
    }

    /// Upsert (insert or update) an ACL rule.
    pub fn upsert_acl_rule(&mut self, rule: &AclRuleRow)
        ensures
            final(self)@ == upserted(old(self)@, rule@),
    {
        let ghost all = self@;
        let mut found: bool = false;
        let mut i: usize = 0;
        while i < self.rows.len()
            invariant
                i <= self.rows@.len() == all.len(),
                found <==> exists|j: int| 0 <= j < i && (#[trigger] all[j]).id == rule.id,
                forall|j: int|
                    0 <= j < i ==> #[trigger] self@[j] == if all[j].id == rule.id {
                        rule@
                    } else {
                        all[j]
                    },
                forall|j: int| i <= j < all.len() ==> #[trigger] self@[j] == all[j],
            decreases self.rows@.len() - i,
        {
            let ghost before = self@;
            assert(self@[i as int] == all[i as int]);
            if self.rows[i].id == rule.id {
                found = true;
                assert(all[i as int].id == rule.id);
                self.rows.set(i, rule.copied());
                assert(self@ =~= before.update(i as int, rule@));
            }
            i = i + 1;
        }
        if !found {
            assert(self@ =~= all);
            self.rows.push(rule.copied());
        }
        assert(self@ =~= upserted(all, rule@));
    }

    /// Delete an ACL rule.
    ///
    /// Returns `true` if the rule existed and was deleted.
    pub fn delete_acl_rule(&mut self, id: i64) -> (deleted: bool)
        ensures
            final(self)@ == old(self)@.filter(other_than(id)),
            deleted == holds(old(self)@, id),
    {
        let mut marks: Vec<bool> = Vec::new();
        let mut deleted: bool = false;
        let mut i: usize = 0;
        while i < self.rows.len()
            invariant
                i <= self.rows@.len(),
                *self == *old(self),
                marks@.len() == i,
                forall|j: int| 0 <= j < i ==> #[trigger] marks@[j] == (self@[j].id != id),
                deleted <==> exists|j: int| 0 <= j < i && (#[trigger] self@[j]).id == id,
            decreases self.rows@.len() - i,
        {
            assert(self@[i as int].id == self.rows@[i as int].id);
            let is_meant: bool = self.rows[i].id == id;
            marks.push(!is_meant);
            if is_meant {
                deleted = true;
            }
            i = i + 1;
        }
        rows::keep_marked(&mut self.rows, &marks, Ghost(other_than(id)));
        deleted
    }
}

/// A rule that was put is the one of its number, and numbers stay distinct.
pub proof fn law_upserted_rule_is_held(table: Seq<RuleEntry>, rule: RuleEntry)
    requires
        distinct(table),
    ensures
        distinct(upserted(table, rule)),
        upserted(table, rule).contains(rule),
        forall|i: int|
            0 <= i < table.len() && (#[trigger] table[i]).id != rule.id ==> upserted(
                table,
                rule,
            )[i] == table[i],
{
    let after = upserted(table, rule);
    if holds(table, rule.id) {
        let i = choose|i: int| 0 <= i < table.len() && (#[trigger] table[i]).id == rule.id;
        assert(after[i] == rule);
        assert forall|i: int, j: int| 0 <= i < j < after.len() implies (#[trigger] after[i]).id
            != (#[trigger] after[j]).id by {
            assert(table[i].id != table[j].id);
        }
    } else {
        assert(after[table.len() as int] == rule);
        assert forall|i: int, j: int| 0 <= i < j < after.len() implies (#[trigger] after[i]).id
            != (#[trigger] after[j]).id by {
            assert(table[i].id != rule.id);
        }
    }
}

/// A rule that was deleted is gone.
pub proof fn law_deleted_rule_is_gone(table: Seq<RuleEntry>, id: i64)
    ensures
        !holds(table.filter(other_than(id)), id),
{
    let rest = table.filter(other_than(id));
    table.filter_lemma(other_than(id));
    if holds(rest, id) {
        let i = choose|i: int| 0 <= i < rest.len() && (#[trigger] rest[i]).id == id;
        assert(other_than(id)(rest[i]));
    }
}

/// Deleting a rule leaves every other rule as it is.
pub proof fn law_other_rules_stay(table: Seq<RuleEntry>, id: i64, rule: RuleEntry)
    ensures
        table.filter(other_than(id)).contains(rule) <==> table.contains(rule) && rule.id != id,
{
    let keep = other_than(id);
    let rest = table.filter(keep);
    rows::lemma_filter_origin(table, keep);
    let from = choose|from: Seq<int>| #[trigger] rows::kept_from(table, keep, from);
    table.filter_lemma(keep);
    if rest.contains(rule) {
        let i = choose|i: int| 0 <= i < rest.len() && rest[i] == rule;
        assert(table[from[i]] == rule && keep(table[from[i]]));
    }
    if table.contains(rule) && rule.id != id {
        let i = choose|i: int| 0 <= i < table.len() && table[i] == rule;
        assert(keep(table[i]));
        assert(rest.contains(table[i]));
    }
}

/// All rules are listed, each once, the lowest priority number first; rules with
/// the same number stand as they do in the table.
pub proof fn law_rules_are_listed_by_priority(
    table: Seq<RuleEntry>,
    out: Seq<RuleEntry>,
) -> (places: Seq<int>)
    requires
        order::listing(table, priorities(table), out),
    ensures
        places.len() == out.len(),
        forall|k: int|
            0 <= k < out.len() ==> 0 <= #[trigger] places[k] < table.len() && out[k]
                == table[places[k]],
        forall|i: int| 0 <= i < table.len() ==> #[trigger] places.contains(i),
        forall|k: int, l: int|
            0 <= k < l < out.len() ==> (#[trigger] out[k]).priority < (
            #[trigger] out[l]).priority || out[k].priority == out[l].priority && places[k]
                < places[l],
{
    let keys = priorities(table);
    let places = order::law_listing_goes_by_the_keys(table, keys, out);
    assert forall|i: int| 0 <= i < table.len() implies #[trigger] places.contains(i) by {
        assert(keys[i] is Some);
        let a = choose|a: int| 0 <= a < out.len() && #[trigger] places[a] == i;
    }
    assert forall|k: int, l: int| 0 <= k < l < out.len() implies (#[trigger] out[k]).priority < (
    #[trigger] out[l]).priority || out[k].priority == out[l].priority && places[k]
        < places[l] by {
        let i = places[k];
        let j = places[l];
        assert(keys[i] == Some(table[i].priority as i128));
        assert(keys[j] == Some(table[j].priority as i128));
    }
    places
}

/// Putting a rule adds it where no rule has its number, and changes how many
/// there are in no other case.
pub proof fn law_put_rule_is_added_once(table: Seq<RuleEntry>, rule: RuleEntry)
    ensures
        ({
            let is_new = forall|i: int|
                0 <= i < table.len() ==> (#[trigger] table[i]).id != rule.id;
            let after = upserted(table, rule);
            &&& after.len() == table.len() + if is_new {
                1int
            } else {
                0int
            }
            &&& forall|i: int|
                0 <= i < table.len() ==> #[trigger] after[i] == if table[i].id == rule.id {
                    rule
                } else {
                    table[i]
                }
            &&& is_new ==> after.last() == rule
        }),
{
}

/// Deleting a rule removes that rule alone, and tells whether it was there.
pub proof fn law_delete_acl_rule(table: &mut AclTable, id: i64, deleted: bool, rule: RuleEntry)
    requires
        call_ensures(AclTable::delete_acl_rule, (table, id), deleted),
    ensures
        deleted <==> exists|i: int| 0 <= i < old(table)@.len() && (#[trigger] old(table)@[i]).id == id,
        final(table)@.contains(rule) <==> old(table)@.contains(rule) && rule.id != id,
{
    law_other_rules_stay(old(table)@, id, rule);
}

} // verus!
