//! Builders of multi-row statements.
//!
//! A combiner gathers the rows of one `INSERT` or one `UPDATE ... FROM
//! (VALUES ...)` and spells out a single statement for all of them. Each row
//! becomes one group of numbered placeholders; the numbering runs on from
//! group to group and never starts again, so that the n-th placeholder of the
//! statement stands for the n-th parameter.

use crate::text::{decimal, push_decimal};
use std::collections::HashMap;
use vstd::prelude::*;
use vstd::string::*;

verus! {

broadcast use vstd::std_specs::hash::group_hash_axioms;

/// One row of a statement: how many values it has, and the type that is
/// written behind the placeholder of a column, for the columns that have one.
pub ghost struct ValueGroup {
    pub width: nat,
    pub types: Map<usize, String>,
}

/// The type annotation of a column, if it has one.
pub open spec fn annotation(types: Map<usize, String>, column: nat) -> Option<Seq<char>> {
    if column <= usize::MAX && types.contains_key(column as usize) {
        Some(types[column as usize]@)
    } else {
        None
    }
}

/// The placeholder of the parameter number `index`, with its annotation.
pub open spec fn cell(index: nat, annotation: Option<Seq<char>>) -> Seq<char> {
    seq!['$'] + decimal(index) + match annotation {
        Some(t) => seq![':', ':'] + t,
        None => Seq::empty(),
    }
}

/// The first `upto` placeholders of a group whose first parameter has the
/// number `first`, separated by commas.
pub open spec fn cells(first: nat, types: Map<usize, String>, upto: nat) -> Seq<char>
    decreases upto,
{
    if upto == 0 {
        Seq::empty()
    } else {
        cells(first, types, (upto - 1) as nat) + if upto > 1 {
            seq![',']
        } else {
            Seq::empty()
        } + cell((first + upto - 1) as nat, annotation(types, (upto - 1) as nat))
    }
}

/// A group in brackets.
pub open spec fn group_text(first: nat, group: ValueGroup) -> Seq<char> {
    seq!['('] + cells(first, group.types, group.width) + seq![')']
}

/// The number of parameters of all groups.
pub open spec fn parameter_count(groups: Seq<ValueGroup>) -> nat
    decreases groups.len(),
{
    if groups.len() == 0 {
        0
    } else {
        parameter_count(groups.drop_last()) + groups.last().width
    }
}

/// The number of the first parameter of group `k`.
pub open spec fn first_index(groups: Seq<ValueGroup>, k: int) -> nat {
    parameter_count(groups.take(k)) + 1
}

/// The number of the last parameter of group `k`; for a group without
/// parameters, the number before its first.
pub open spec fn last_index(groups: Seq<ValueGroup>, k: int) -> nat {
    parameter_count(groups.take(k + 1))
}

/// What stands before a group: a blank before the first, a comma before the
/// others.
pub open spec fn separator(groups_before: nat) -> Seq<char> {
    if groups_before == 0 {
        seq![' ']
    } else {
        seq![',']
    }
}

/// All groups, each after its separator and each numbered on from the one
/// before.
pub open spec fn groups_text(groups: Seq<ValueGroup>) -> Seq<char>
    decreases groups.len(),
{
    if groups.len() == 0 {
        Seq::empty()
    } else {
        groups_text(groups.drop_last()) + separator((groups.len() - 1) as nat) + group_text(
            first_index(groups, groups.len() - 1),
            groups.last(),
        )
    }
}

/// The head of an insert statement.
pub open spec fn insert_head(table_name: Seq<char>, columns: Seq<char>) -> Seq<char> {
    "INSERT INTO "@ + table_name + " ("@ + columns + ") VALUES"@
}

/// The head of an update statement.
pub open spec fn update_head(table_name: Seq<char>, updates: Seq<char>) -> Seq<char> {
    "UPDATE "@ + table_name + " SET "@ + updates + " FROM (VALUES"@
}

/// The end of an update statement.
pub open spec fn update_tail(values_names: Seq<char>, where_condition: Seq<char>) -> Seq<char> {
    ") AS "@ + values_names + " WHERE "@ + where_condition
}

/// The numbers of a group run from its first to its last without a gap, and
/// the first group starts at 1.
pub proof fn lemma_group_indices(groups: Seq<ValueGroup>, k: int)
    requires
        0 <= k < groups.len(),
    ensures
        first_index(groups, 0) == 1,
        last_index(groups, k) + 1 == first_index(groups, k) + groups[k].width,
        k + 1 < groups.len() ==> first_index(groups, k + 1) == last_index(groups, k) + 1,
{
    assert(groups.take(k + 1).drop_last() =~= groups.take(k));
}

/// No two groups share a number: every number of an earlier group is smaller
/// than every number of a later one.
pub proof fn lemma_groups_do_not_overlap(groups: Seq<ValueGroup>, j: int, k: int)
    requires
        0 <= j < k < groups.len(),
    ensures
        last_index(groups, j) < first_index(groups, k),
    decreases k - j,
{
    lemma_group_indices(groups, j);
    if j + 1 < k {
        lemma_groups_do_not_overlap(groups, j + 1, k);
        lemma_group_indices(groups, j + 1);
    }
}

/// A statement that is ready to be sent, with its parameters in the order of
/// its placeholders.
pub struct Statement<'a, P> {
    pub text: &'a String,
    pub params: &'a Vec<P>,
}

/// Appends one group of `width` placeholders, the first with the number
/// `first`.
fn push_group(out: &mut String, first: u128, width: usize, types: &HashMap<usize, String>)
    requires
        first + width <= u128::MAX,
    ensures
        final(out)@ == old(out)@ + group_text(
            first as nat,
            ValueGroup { width: width as nat, types: types@ },
        ),
{
    proof {
        reveal_strlit("(");
        reveal_strlit(")");
        reveal_strlit(",");
        reveal_strlit("$");
        reveal_strlit("::");
    }
    out.append("(");
    let mut i: usize = 0;
    while i < width
        invariant
            i <= width,
            first + width <= u128::MAX,
            out@ == old(out)@ + seq!['('] + cells(first as nat, types@, i as nat),
            ","@ == seq![','],
            "$"@ == seq!['$'],
            "::"@ == seq![':', ':'],
        decreases width - i,
    {
        let ghost before = out@;
        if i > 0 {
            out.append(",");
        }
        out.append("$");
        push_decimal(out, first + i as u128);
        let ghost numbered = out@;
        match types.get(&i) {
            Some(t) => {
                out.append("::");
                out.append(t.as_str());
            },
            None => {},
        }
        i += 1;
        assert(out@ =~= old(out)@ + seq!['('] + cells(first as nat, types@, i as nat));
    }
    out.append(")");
}

/// Gathers the rows of one insert statement.
pub struct InsertQueryCombiner<P> {
    insertions: u64,
    statement: String,
    params: Vec<P>,
    head: Ghost<Seq<char>>,
    groups: Ghost<Seq<ValueGroup>>,
}

impl<P> InsertQueryCombiner<P> {
    /// Whether this combiner is one that `new` and `add` have made: its text
    /// is the head followed by one group per row, there is one parameter per
    /// placeholder, and no placeholder carries a type.
    pub closed spec fn well_formed(self) -> bool {
        &&& self.statement@ == self.head@ + groups_text(self.groups@)
        &&& self.params.len() == parameter_count(self.groups@)
        &&& self.insertions == self.groups@.len()
        &&& forall|k: int|
            0 <= k < self.groups@.len() ==> (#[trigger] self.groups@[k]).types == Map::<
                usize,
                String,
            >::empty()
    }

    /// The head of the statement: everything before the first group.
    pub closed spec fn head(self) -> Seq<char> {
        self.head@
    }

    /// The rows added so far.
    pub closed spec fn groups(self) -> Seq<ValueGroup> {
        self.groups@
    }

    /// The parameters added so far, in the order of their placeholders.
    pub closed spec fn parameters(self) -> Seq<P> {
        self.params@
    }

    /// The text of the statement as it stands.
    pub closed spec fn text(self) -> Seq<char> {
        self.statement@
    }

    /// The number of rows added so far.
    pub closed spec fn rows(self) -> nat {
        self.insertions as nat
    }

    /// The text of a combiner is its head followed by one group per row, with
    /// one parameter for each placeholder.
    pub proof fn lemma_shape(self)
        requires
            self.well_formed(),
        ensures
            self.text() == self.head() + groups_text(self.groups()),
            self.parameters().len() == parameter_count(self.groups()),
            self.rows() == self.groups().len(),
            forall|k: int|
                0 <= k < self.groups().len() ==> (#[trigger] self.groups()[k]).types == Map::<
                    usize,
                    String,
                >::empty(),
    {
    }

    /// A combiner for `table_name` and its `columns`, without rows.
    pub fn new(table_name: String, columns: String) -> (r: Self)
        ensures
            r.well_formed(),
            r.head() == insert_head(table_name@, columns@),
            r.groups() == Seq::<ValueGroup>::empty(),
            r.parameters() == Seq::<P>::empty(),
            r.text() == r.head(),
            r.rows() == 0,
    {
        let mut statement = String::from_str("INSERT INTO ");
        statement.append(table_name.as_str());
        statement.append(" (");
        statement.append(columns.as_str());
        statement.append(") VALUES");
        InsertQueryCombiner {
            insertions: 0,
            statement,
            params: Vec::new(),
            head: Ghost(insert_head(table_name@, columns@)),
            groups: Ghost(Seq::empty()),
        }
    }

    /// The number of rows added so far.
    pub fn insertions(&self) -> (r: u64)
        ensures
            r == self.rows(),
    {
        self.insertions
    }

    /// Adds one row. The values are moved out of `values`, and the statement
    /// grows by one group with one placeholder for each of them, numbered on
    /// from the last placeholder before.
    pub fn add(&mut self, values: &mut Vec<P>)
        requires
            old(self).well_formed(),
            old(self).rows() < u64::MAX,
        ensures
            final(self).well_formed(),
            final(self).head() == old(self).head(),
            final(self).groups() == old(self).groups().push(
                ValueGroup { width: old(values).len() as nat, types: Map::empty() },
            ),
            final(self).parameters() == old(self).parameters() + old(values)@,
            final(self).text() == old(self).text() + separator(old(self).rows()) + group_text(
                old(self).parameters().len() + 1,
                ValueGroup { width: old(values).len() as nat, types: Map::empty() },
            ),
            final(self).rows() == old(self).rows() + 1,
            final(values)@ == Seq::<P>::empty(),
    {
        proof {
            reveal_strlit(" ");
            reveal_strlit(",");
        }
        let ghost group = ValueGroup { width: values.len() as nat, types: Map::empty() };
        let ghost grown = self.groups@.push(group);
        let types: HashMap<usize, String> = HashMap::new();
        if self.insertions == 0 {
            self.statement.append(" ");
        } else {
            self.statement.append(",");
        }
        push_group(&mut self.statement, self.params.len() as u128 + 1, values.len(), &types);
        self.params.append(values);
        self.insertions += 1;
        proof {
            assert(grown.drop_last() =~= old(self).groups@);
            self.groups = Ghost(grown);
            assert(self.statement@ =~= self.head@ + groups_text(grown));
        }
    }

    /// The statement to send, or nothing where no row was added: then there
    /// is nothing to send and no row is affected.
    pub fn execute(&self) -> (r: Option<Statement<'_, P>>)
        ensures
            r is None <==> self.rows() == 0,
            r matches Some(s) ==> s.text@ == self.text() && s.params@ == self.parameters(),
    {
        if self.insertions == 0 {
            return None;
        }
        Some(Statement { text: &self.statement, params: &self.params })
    }
}

/// Gathers the rows of one update statement, of the form
/// `UPDATE t SET ... FROM (VALUES (...),(...)) AS names WHERE condition`.
pub struct UpdateQueryCombiner<P> {
    updates: u64,
    statement: String,
    values_names: String,
    where_condition: String,
    params: Vec<P>,
    head: Ghost<Seq<char>>,
    groups: Ghost<Seq<ValueGroup>>,
}

impl<P> UpdateQueryCombiner<P> {
    /// Whether this combiner is one that `new` and `add` have made and that
    /// has not yet given out its statement: its text is the head followed by
    /// one group per row, and there is one parameter per placeholder.
    pub closed spec fn well_formed(self) -> bool {
        &&& self.statement@ == self.head@ + groups_text(self.groups@)
        &&& self.params.len() == parameter_count(self.groups@)
        &&& self.updates == self.groups@.len()
    }

    /// The head of the statement: everything before the first group.
    pub closed spec fn head(self) -> Seq<char> {
        self.head@
    }

    /// The end of the statement: everything after the last group.
    pub closed spec fn tail(self) -> Seq<char> {
        update_tail(self.values_names@, self.where_condition@)
    }

    /// The rows added so far.
    pub closed spec fn groups(self) -> Seq<ValueGroup> {
        self.groups@
    }

    /// The parameters added so far, in the order of their placeholders.
    pub closed spec fn parameters(self) -> Seq<P> {
        self.params@
    }

    /// The text of the statement as it stands.
    pub closed spec fn text(self) -> Seq<char> {
        self.statement@
    }

    /// The number of rows added so far.
    pub closed spec fn rows(self) -> nat {
        self.updates as nat
    }

    /// The text of a combiner is its head followed by one group per row, with
    /// one parameter for each placeholder.
    pub proof fn lemma_shape(self)
        requires
            self.well_formed(),
        ensures
            self.text() == self.head() + groups_text(self.groups()),
            self.parameters().len() == parameter_count(self.groups()),
            self.rows() == self.groups().len(),
    {
    }

    /// A combiner without rows, for the statement that sets `updates` in
    /// `table_name` from values named by `values_names`, where
    /// `where_condition` holds.
    pub fn new(
        table_name: String,
        updates: String,
        values_names: String,
        where_condition: String,
    ) -> (r: Self)
        ensures
            r.well_formed(),
            r.head() == update_head(table_name@, updates@),
            r.tail() == update_tail(values_names@, where_condition@),
            r.groups() == Seq::<ValueGroup>::empty(),
            r.parameters() == Seq::<P>::empty(),
            r.text() == r.head(),
            r.rows() == 0,
    {
        let mut statement = String::from_str("UPDATE ");
        statement.append(table_name.as_str());
        statement.append(" SET ");
        statement.append(updates.as_str());
        statement.append(" FROM (VALUES");
        UpdateQueryCombiner {
            updates: 0,
            statement,
            values_names,
            where_condition,
            params: Vec::new(),
            head: Ghost(update_head(table_name@, updates@)),
            groups: Ghost(Seq::empty()),
        }
    }

    /// The number of rows added so far.
    pub fn updates(&self) -> (r: u64)
        ensures
            r == self.rows(),
    {
        self.updates
    }

    /// Adds one row. The values are moved out of `values`, and the statement
    /// grows by one group with one placeholder for each of them, numbered on
    /// from the last placeholder before. Where `types` has an entry for the
    /// place of a value within the row, counted from 0, the placeholder of
    /// that value is followed by `::` and the entry.
    pub fn add(&mut self, values: &mut Vec<P>, types: HashMap<usize, String>)
        requires
            old(self).well_formed(),
            old(self).rows() < u64::MAX,
        ensures
            final(self).well_formed(),
            final(self).head() == old(self).head(),
            final(self).tail() == old(self).tail(),
            final(self).groups() == old(self).groups().push(
                ValueGroup { width: old(values).len() as nat, types: types@ },
            ),
            final(self).parameters() == old(self).parameters() + old(values)@,
            final(self).text() == old(self).text() + separator(old(self).rows()) + group_text(
                old(self).parameters().len() + 1,
                ValueGroup { width: old(values).len() as nat, types: types@ },
            ),
            final(self).rows() == old(self).rows() + 1,
            final(values)@ == Seq::<P>::empty(),
    {
        proof {
            reveal_strlit(" ");
            reveal_strlit(",");
        }
        let ghost group = ValueGroup { width: values.len() as nat, types: types@ };
        let ghost grown = self.groups@.push(group);
        if self.updates == 0 {
            self.statement.append(" ");
        } else {
            self.statement.append(",");
        }
        push_group(&mut self.statement, self.params.len() as u128 + 1, values.len(), &types);
        self.params.append(values);
        self.updates += 1;
        proof {
            assert(grown.drop_last() =~= old(self).groups@);
            self.groups = Ghost(grown);
            assert(self.statement@ =~= self.head@ + groups_text(grown));
        }
    }

    /// Closes the statement and gives it out, or does nothing and gives out
    /// nothing where no row was added: then there is nothing to send and no
    /// row is affected.
    pub fn execute(&mut self) -> (r: Option<Statement<'_, P>>)
        requires
            old(self).well_formed(),
        ensures
            r is None <==> old(self).rows() == 0,
            r is None ==> *final(self) == *old(self),
            r matches Some(s) ==> {
                &&& s.text@ == old(self).head() + groups_text(old(self).groups()) + old(
                    self,
                ).tail()
                &&& s.params@ == old(self).parameters()
                &&& final(self).text() == s.text@
                &&& final(self).parameters() == old(self).parameters()
                &&& final(self).groups() == old(self).groups()
                &&& final(self).rows() == old(self).rows()
                &&& final(self).head() == old(self).head()
                &&& final(self).tail() == old(self).tail()
            },
    {
        if self.updates == 0 {
            return None;
        }
        self.statement.append(") AS ");
        self.statement.append(self.values_names.as_str());
        self.statement.append(" WHERE ");
        self.statement.append(self.where_condition.as_str());
        Some(Statement { text: &self.statement, params: &self.params })
    }
}

} // verus!
