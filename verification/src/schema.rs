//! Schemas and the document-level schema map: name-keyed association lists
//! that keep first-insertion order and collapse a duplicate name to the
//! last-seen value.

use crate::resolver::parse_type;
use crate::resolver::resolved;
use crate::resolver::str_eq;
use crate::types::SchemaType;
use crate::types::TypeModel;
use vstd::prelude::*;

verus! {

/// One raw table row: the property name from the row's first cell, and the
/// raw type text from its second cell.
pub struct PropertyRow {
    pub name: String,
    pub raw_type: String,
}

impl View for PropertyRow {
    type V = (Seq<char>, Seq<char>);

    open spec fn view(&self) -> Self::V {
        (self.name@, self.raw_type@)
    }
}

impl DeepView for PropertyRow {
    type V = (Seq<char>, Seq<char>);

    open spec fn deep_view(&self) -> Self::V {
        self.view()
    }
}

/// One extracted documentation section: the schema name from its heading and
/// the raw property rows of its table, in document order.
pub struct SchemaSection {
    pub name: String,
    pub rows: Vec<PropertyRow>,
}

impl View for SchemaSection {
    type V = (Seq<char>, Seq<(Seq<char>, Seq<char>)>);

    open spec fn view(&self) -> Self::V {
        (self.name@, self.rows.deep_view())
    }
}

impl DeepView for SchemaSection {
    type V = (Seq<char>, Seq<(Seq<char>, Seq<char>)>);

    open spec fn deep_view(&self) -> Self::V {
        self.view()
    }
}

/// Insert into an association list: a present key keeps its position and
/// takes the new value; an absent key is appended at the end.
pub open spec fn upsert<V>(entries: Seq<(Seq<char>, V)>, key: Seq<char>, value: V) -> Seq<
    (Seq<char>, V),
>
    decreases entries.len(),
{
    if entries.len() == 0 {
        seq![(key, value)]
    } else if entries[0].0 == key {
        seq![(key, value)] + entries.drop_first()
    } else {
        seq![entries[0]] + upsert(entries.drop_first(), key, value)
    }
}

/// Look a key up in an association list.
pub open spec fn lookup<V>(entries: Seq<(Seq<char>, V)>, key: Seq<char>) -> Option<V>
    decreases entries.len(),
{
    if entries.len() == 0 {
        None
    } else if entries[0].0 == key {
        Some(entries[0].1)
    } else {
        lookup(entries.drop_first(), key)
    }
}

proof fn lemma_upsert_absent<V>(entries: Seq<(Seq<char>, V)>, key: Seq<char>, value: V)
    requires
        forall|q: int| 0 <= q < entries.len() ==> entries[q].0 != key,
    ensures
        upsert(entries, key, value) == entries.push((key, value)),
    decreases entries.len(),
{
    if entries.len() == 0 {
        assert(upsert(entries, key, value) =~= entries.push((key, value)));
    } else {
        assert forall|q: int| 0 <= q < entries.drop_first().len() implies entries.drop_first()[q].0
            != key by {
            assert(entries.drop_first()[q] == entries[q + 1]);
        }
        lemma_upsert_absent(entries.drop_first(), key, value);
        assert(seq![entries[0]] + entries.drop_first().push((key, value)) =~= entries.push(
            (key, value),
        ));
    }
}

proof fn lemma_upsert_found<V>(entries: Seq<(Seq<char>, V)>, key: Seq<char>, value: V, i: int)
    requires
        0 <= i < entries.len(),
        entries[i].0 == key,
        forall|q: int| 0 <= q < i ==> entries[q].0 != key,
    ensures
        upsert(entries, key, value) == entries.update(i, (key, value)),
    decreases i,
{
    if i == 0 {
        assert(seq![(key, value)] + entries.drop_first() =~= entries.update(0, (key, value)));
    } else {
        assert forall|q: int| 0 <= q < i - 1 implies entries.drop_first()[q].0 != key by {
            assert(entries.drop_first()[q] == entries[q + 1]);
        }
        assert(entries.drop_first()[i - 1] == entries[i]);
        lemma_upsert_found(entries.drop_first(), key, value, i - 1);
        assert(seq![entries[0]] + entries.drop_first().update(i - 1, (key, value))
            =~= entries.update(i, (key, value)));
    }
}

/// No two entries of the association list share a name.
pub open spec fn names_unique<V>(entries: Seq<(Seq<char>, V)>) -> bool {
    forall|i: int, j: int| 0 <= i < j < entries.len() ==> entries[i].0 != entries[j].0
}

/// Law: storing under a key makes it the one found, and leaves every other
/// key's entry untouched — a duplicate collapses to the last-seen value.
pub proof fn lemma_upsert_then_lookup<V>(
    entries: Seq<(Seq<char>, V)>,
    key: Seq<char>,
    value: V,
    other: Seq<char>,
)
    ensures
        lookup(upsert(entries, key, value), key) == Some(value),
        other != key ==> lookup(upsert(entries, key, value), other) == lookup(entries, other),
    decreases entries.len(),
{
    if entries.len() == 0 {
        let u = seq![(key, value)];
        assert(u[0] == (key, value));
        assert(u.drop_first() =~= Seq::<(Seq<char>, V)>::empty());
        assert(lookup(Seq::<(Seq<char>, V)>::empty(), other) is None);
    } else if entries[0].0 == key {
        let u = seq![(key, value)] + entries.drop_first();
        assert(u[0] == (key, value));
        assert(u.drop_first() =~= entries.drop_first());
        if other != key {
            assert(lookup(u, other) == lookup(entries.drop_first(), other));
            assert(lookup(entries, other) == lookup(entries.drop_first(), other));
        }
    } else {
        lemma_upsert_then_lookup(entries.drop_first(), key, value, other);
        let u = seq![entries[0]] + upsert(entries.drop_first(), key, value);
        assert(u == upsert(entries, key, value));
        assert(u[0] == entries[0]);
        assert(u.drop_first() =~= upsert(entries.drop_first(), key, value));
        assert(lookup(u, key) == lookup(upsert(entries.drop_first(), key, value), key));
        if other != key {
            if entries[0].0 == other {
                assert(lookup(u, other) == Some(entries[0].1));
                assert(lookup(entries, other) == Some(entries[0].1));
            } else {
                assert(lookup(u, other) == lookup(upsert(entries.drop_first(), key, value), other));
                assert(lookup(entries, other) == lookup(entries.drop_first(), other));
            }
        }
    }
}

/// Every name in the stored list is the stored key or a name that was
/// already present.
proof fn lemma_upsert_name_origin<V>(entries: Seq<(Seq<char>, V)>, key: Seq<char>, value: V, q: int)
    requires
        0 <= q < upsert(entries, key, value).len(),
    ensures
        upsert(entries, key, value)[q].0 == key || exists|p: int|
            0 <= p < entries.len() && entries[p].0 == upsert(entries, key, value)[q].0,
    decreases entries.len(),
{
    let u = upsert(entries, key, value);
    if entries.len() == 0 {
    } else if entries[0].0 == key {
        if q > 0 {
            assert(u[q] == entries.drop_first()[q - 1]);
            assert(entries[q].0 == u[q].0);
        }
    } else {
        if q == 0 {
            assert(entries[0].0 == u[0].0);
        } else {
            assert(u[q] == upsert(entries.drop_first(), key, value)[q - 1]);
            lemma_upsert_name_origin(entries.drop_first(), key, value, q - 1);
            if u[q].0 != key {
                let p = choose|p: int|
                    0 <= p < entries.drop_first().len() && entries.drop_first()[p].0 == u[q].0;
                assert(entries[p + 1].0 == u[q].0);
            }
        }
    }
}

/// Law: the association lists keep their names unique; storing under a name
/// that is present replaces its entry in place rather than adding a second.
pub proof fn lemma_upsert_preserves_unique_names<V>(
    entries: Seq<(Seq<char>, V)>,
    key: Seq<char>,
    value: V,
)
    requires
        names_unique(entries),
    ensures
        names_unique(upsert(entries, key, value)),
    decreases entries.len(),
{
    let u = upsert(entries, key, value);
    if entries.len() == 0 {
    } else if entries[0].0 == key {
        assert forall|i: int, j: int| 0 <= i < j < u.len() implies u[i].0 != u[j].0 by {
            if i == 0 {
                assert(u[j] == entries.drop_first()[j - 1]);
                assert(entries[j].0 == u[j].0);
            } else {
                assert(u[i] == entries[i]);
                assert(u[j] == entries[j]);
            }
        }
    } else {
        assert forall|i: int, j: int|
            0 <= i < j < entries.drop_first().len() implies entries.drop_first()[i].0
            != entries.drop_first()[j].0 by {
            assert(entries.drop_first()[i] == entries[i + 1]);
            assert(entries.drop_first()[j] == entries[j + 1]);
        }
        lemma_upsert_preserves_unique_names(entries.drop_first(), key, value);
        let rest = upsert(entries.drop_first(), key, value);
        assert forall|i: int, j: int| 0 <= i < j < u.len() implies u[i].0 != u[j].0 by {
            if i == 0 {
                assert(u[j] == rest[j - 1]);
                lemma_upsert_name_origin(entries.drop_first(), key, value, j - 1);
                if rest[j - 1].0 != key {
                    let p = choose|p: int|
                        0 <= p < entries.drop_first().len() && entries.drop_first()[p].0 == rest[j
                            - 1].0;
                    assert(entries[p + 1].0 == rest[j - 1].0);
                }
            } else {
                assert(u[i] == rest[i - 1]);
                assert(u[j] == rest[j - 1]);
            }
        }
    }
}

/// The schema that a section's raw rows fold into: each row's type text is
/// resolved and stored under the row's property name, in row order, with a
/// duplicate name collapsing to the last-seen value.
pub open spec fn schema_of_rows(rows: Seq<(Seq<char>, Seq<char>)>) -> Seq<(Seq<char>, TypeModel)>
    decreases rows.len(),
{
    if rows.len() == 0 {
        Seq::empty()
    } else {
        upsert(schema_of_rows(rows.drop_last()), rows.last().0, resolved(rows.last().1))
    }
}

/// The schema map that a document's sections fold into, in section order,
/// with a duplicate schema name collapsing to the last-seen schema.
pub open spec fn schema_map_of_sections(
    sections: Seq<(Seq<char>, Seq<(Seq<char>, Seq<char>)>)>,
) -> Seq<(Seq<char>, Seq<(Seq<char>, TypeModel)>)>
    decreases sections.len(),
{
    if sections.len() == 0 {
        Seq::empty()
    } else {
        upsert(
            schema_map_of_sections(sections.drop_last()),
            sections.last().0,
            schema_of_rows(sections.last().1),
        )
    }
}

/// Law: a folded schema's property names are unique; a duplicate in the
/// source collapses into one entry.
pub proof fn lemma_schema_of_rows_names_unique(rows: Seq<(Seq<char>, Seq<char>)>)
    ensures
        names_unique(schema_of_rows(rows)),
    decreases rows.len(),
{
    if rows.len() > 0 {
        lemma_schema_of_rows_names_unique(rows.drop_last());
        lemma_upsert_preserves_unique_names(
            schema_of_rows(rows.drop_last()),
            rows.last().0,
            resolved(rows.last().1),
        );
    }
}

/// Law: the folded schema map's schema names are unique; a duplicate section
/// collapses into one entry.
pub proof fn lemma_schema_map_names_unique(sections: Seq<(Seq<char>, Seq<(Seq<char>, Seq<char>)>)>)
    ensures
        names_unique(schema_map_of_sections(sections)),
    decreases sections.len(),
{
    if sections.len() > 0 {
        lemma_schema_map_names_unique(sections.drop_last());
        lemma_upsert_preserves_unique_names(
            schema_map_of_sections(sections.drop_last()),
            sections.last().0,
            schema_of_rows(sections.last().1),
        );
    }
}

/// Law: looking a property name up in a folded schema finds exactly the
/// resolution of the last row that carried that name.
pub proof fn lemma_row_lookup(rows: Seq<(Seq<char>, Seq<char>)>, i: int)
    requires
        0 <= i < rows.len(),
        forall|j: int| i < j < rows.len() ==> rows[j].0 != rows[i].0,
    ensures
        lookup(schema_of_rows(rows), rows[i].0) == Some(resolved(rows[i].1)),
    decreases rows.len(),
{
    let prior = schema_of_rows(rows.drop_last());
    if i == rows.len() - 1 {
        lemma_upsert_then_lookup(prior, rows[i].0, resolved(rows[i].1), rows[i].0);
    } else {
        assert forall|j: int| i < j < rows.drop_last().len() implies rows.drop_last()[j].0
            != rows.drop_last()[i].0 by {
            assert(rows.drop_last()[j] == rows[j]);
        }
        assert(rows.drop_last()[i] == rows[i]);
        lemma_row_lookup(rows.drop_last(), i);
        assert(rows.last().0 != rows[i].0);
        lemma_upsert_then_lookup(prior, rows.last().0, resolved(rows.last().1), rows[i].0);
    }
}

/// Law: looking a schema name up in the folded schema map finds exactly the
/// fold of the last section that carried that name.
pub proof fn lemma_section_lookup(sections: Seq<(Seq<char>, Seq<(Seq<char>, Seq<char>)>)>, i: int)
    requires
        0 <= i < sections.len(),
        forall|j: int| i < j < sections.len() ==> sections[j].0 != sections[i].0,
    ensures
        lookup(schema_map_of_sections(sections), sections[i].0) == Some(
            schema_of_rows(sections[i].1),
        ),
    decreases sections.len(),
{
    let prior = schema_map_of_sections(sections.drop_last());
    if i == sections.len() - 1 {
        lemma_upsert_then_lookup(prior, sections[i].0, schema_of_rows(sections[i].1), sections[i].0);
    } else {
        assert forall|j: int| i < j < sections.drop_last().len() implies sections.drop_last()[j].0
            != sections.drop_last()[i].0 by {
            assert(sections.drop_last()[j] == sections[j]);
        }
        assert(sections.drop_last()[i] == sections[i]);
        lemma_section_lookup(sections.drop_last(), i);
        assert(sections.last().0 != sections[i].0);
        lemma_upsert_then_lookup(
            prior,
            sections.last().0,
            schema_of_rows(sections.last().1),
            sections[i].0,
        );
    }
}

/// Law: end to end, the folded schema map, looked up at a section's name,
/// holds that section's folded schema; and that schema, looked up at a row's
/// property name, holds exactly the resolution of the row's raw type text —
/// for the last occurrences of the section and row names.
pub proof fn lemma_property_end_to_end(
    sections: Seq<(Seq<char>, Seq<(Seq<char>, Seq<char>)>)>,
    i: int,
    j: int,
)
    requires
        0 <= i < sections.len(),
        forall|q: int| i < q < sections.len() ==> sections[q].0 != sections[i].0,
        0 <= j < sections[i].1.len(),
        forall|q: int| j < q < sections[i].1.len() ==> sections[i].1[q].0 != sections[i].1[j].0,
    ensures
        lookup(schema_map_of_sections(sections), sections[i].0) == Some(
            schema_of_rows(sections[i].1),
        ),
        lookup(schema_of_rows(sections[i].1), sections[i].1[j].0) == Some(
            resolved(sections[i].1[j].1),
        ),
{
    lemma_section_lookup(sections, i);
    lemma_row_lookup(sections[i].1, j);
}

/// The resolved structured type for one section: a mapping from property
/// name (unique) to its resolved type, in first-insertion order.
pub struct Schema {
    pub properties: Vec<(String, SchemaType)>,
}

impl View for Schema {
    type V = Seq<(Seq<char>, TypeModel)>;

    open spec fn view(&self) -> Self::V {
        self.properties.deep_view()
    }
}

impl DeepView for Schema {
    type V = Seq<(Seq<char>, TypeModel)>;

    open spec fn deep_view(&self) -> Self::V {
        self.view()
    }
}

impl Schema {
    pub fn new() -> (s: Schema)
        ensures
            s@ == Seq::<(Seq<char>, TypeModel)>::empty(),
    {
        let s = Schema { properties: Vec::new() };
        proof {
            assert(s@ =~= Seq::<(Seq<char>, TypeModel)>::empty());
        }
        s
    }

    /// Store a resolved type under a property name: a name already present
    /// keeps its position and takes the new type, a new name is appended.
    pub fn insert(&mut self, name: String, value: SchemaType)
        ensures
            final(self)@ == upsert(old(self)@, name@, value@),
    {
        let n = self.properties.len();
        let mut j: usize = 0;
        while j < n
            invariant
                n == self.properties.len(),
                j <= n,
                *self == *old(self),
                forall|q: int| 0 <= q < j ==> self@[q].0 != name@,
            decreases n - j,
        {
            let hit = str_eq(self.properties[j].0.as_str(), name.as_str());
            if hit {
                proof {
                    assert(self@[j as int].0 == name@);
                    lemma_upsert_found(old(self)@, name@, value@, j as int);
                }
                self.properties.set(j, (name, value));
                proof {
                    assert(self@ =~= old(self)@.update(j as int, (name@, value@)));
                }
                return ;
            }
            j = j + 1;
        }
        proof {
            lemma_upsert_absent(old(self)@, name@, value@);
        }
        self.properties.push((name, value));
        proof {
            assert(self@ =~= old(self)@.push((name@, value@)));
        }
    }

    /// The resolved type stored under a property name, if any.
    pub fn get(&self, name: &str) -> (r: Option<&SchemaType>)
        ensures
            match r {
                Some(t) => lookup(self@, name@) == Some(t@),
                None => lookup(self@, name@) is None,
            },
    {
        let n = self.properties.len();
        let mut j: usize = 0;
        proof {
            assert(self@.skip(0) =~= self@);
        }
        while j < n
            invariant
                n == self.properties.len(),
                j <= n,
                forall|q: int| 0 <= q < j ==> self@[q].0 != name@,
                lookup(self@, name@) == lookup(self@.skip(j as int), name@),
            decreases n - j,
        {
            let hit = str_eq(self.properties[j].0.as_str(), name);
            proof {
                assert(self@.skip(j as int)[0] == self@[j as int]);
                assert(self@.skip(j as int).drop_first() =~= self@.skip(j as int + 1));
            }
            if hit {
                return Some(&self.properties[j].1);
            }
            j = j + 1;
        }
        proof {
            assert(self@.skip(n as int) =~= Seq::<(Seq<char>, TypeModel)>::empty());
        }
        None
    }

    /// How many distinct properties the schema holds.
    pub fn len(&self) -> (n: usize)
        ensures
            n == self@.len(),
    {
        self.properties.len()
    }
}

/// Fold one section's raw rows into its schema: resolve each row's raw type
/// text and store it under the row's property name, in row order.
pub fn parse_schema(rows: &Vec<PropertyRow>) -> (s: Schema)
    ensures
        s@ == schema_of_rows(rows.deep_view()),
{
    let mut s = Schema::new();
    let n = rows.len();
    let mut k: usize = 0;
    proof {
        assert(rows.deep_view().take(0) =~= Seq::<(Seq<char>, Seq<char>)>::empty());
    }
    while k < n
        invariant
            n == rows.len(),
            k <= n,
            s@ == schema_of_rows(rows.deep_view().take(k as int)),
        decreases n - k,
    {
        let row = &rows[k];
        let value = parse_type(row.raw_type.as_str());
        let name = row.name.clone();
        proof {
            let rs = rows.deep_view();
            assert(rs.take(k as int + 1).drop_last() =~= rs.take(k as int));
            assert(rs.take(k as int + 1).last() == rs[k as int]);
            assert(rs[k as int] == rows@[k as int].deep_view());
        }
        s.insert(name, value);
        k = k + 1;
    }
    proof {
        assert(rows.deep_view().take(n as int) =~= rows.deep_view());
    }
    s
}

/// The final output: a mapping from schema name (unique) to schema, ordered
/// by first-encountered section order.
pub struct SchemaMap {
    pub entries: Vec<(String, Schema)>,
}

impl View for SchemaMap {
    type V = Seq<(Seq<char>, Seq<(Seq<char>, TypeModel)>)>;

    open spec fn view(&self) -> Self::V {
        self.entries.deep_view()
    }
}

impl SchemaMap {
    pub fn new() -> (m: SchemaMap)
        ensures
            m@ == Seq::<(Seq<char>, Seq<(Seq<char>, TypeModel)>)>::empty(),
    {
        let m = SchemaMap { entries: Vec::new() };
        proof {
            assert(m@ =~= Seq::<(Seq<char>, Seq<(Seq<char>, TypeModel)>)>::empty());
        }
        m
    }

    /// Store a schema under a name: a name already present keeps its position
    /// and takes the new schema, a new name is appended.
    pub fn insert(&mut self, name: String, schema: Schema)
        ensures
            final(self)@ == upsert(old(self)@, name@, schema@),
    {
        let n = self.entries.len();
        let mut j: usize = 0;
        while j < n
            invariant
                n == self.entries.len(),
                j <= n,
                *self == *old(self),
                forall|q: int| 0 <= q < j ==> self@[q].0 != name@,
            decreases n - j,
        {
            let hit = str_eq(self.entries[j].0.as_str(), name.as_str());
            if hit {
                proof {
                    assert(self@[j as int].0 == name@);
                    lemma_upsert_found(old(self)@, name@, schema@, j as int);
                }
                self.entries.set(j, (name, schema));
                proof {
                    assert(self@ =~= old(self)@.update(j as int, (name@, schema@)));
                }
                return ;
            }
            j = j + 1;
        }
        proof {
            lemma_upsert_absent(old(self)@, name@, schema@);
        }
        self.entries.push((name, schema));
        proof {
            assert(self@ =~= old(self)@.push((name@, schema@)));
        }
    }

    /// The schema stored under a name, if any.
    pub fn get(&self, name: &str) -> (r: Option<&Schema>)
        ensures
            match r {
                Some(s) => lookup(self@, name@) == Some(s@),
                None => lookup(self@, name@) is None,
            },
    {
        let n = self.entries.len();
        let mut j: usize = 0;
        proof {
            assert(self@.skip(0) =~= self@);
        }
        while j < n
            invariant
                n == self.entries.len(),
                j <= n,
                forall|q: int| 0 <= q < j ==> self@[q].0 != name@,
                lookup(self@, name@) == lookup(self@.skip(j as int), name@),
            decreases n - j,
        {
            let hit = str_eq(self.entries[j].0.as_str(), name);
            proof {
                assert(self@.skip(j as int)[0] == self@[j as int]);
                assert(self@.skip(j as int).drop_first() =~= self@.skip(j as int + 1));
            }
            if hit {
                return Some(&self.entries[j].1);
            }
            j = j + 1;
        }
        proof {
            assert(self@.skip(n as int) =~= Seq::<(Seq<char>, Seq<(Seq<char>, TypeModel)>)>::empty());
        }
        None
    }

    /// How many schemas the map holds.
    pub fn len(&self) -> (n: usize)
        ensures
            n == self@.len(),
    {
        self.entries.len()
    }
}

/// Fold extracted sections into the schema map: each section's rows become
/// its schema, stored under the section's name, in section order.
pub fn parse_sections(sections: &Vec<SchemaSection>) -> (m: SchemaMap)
    ensures
        m@ == schema_map_of_sections(sections.deep_view()),
{
    let mut m = SchemaMap::new();
    let n = sections.len();
    let mut k: usize = 0;
    proof {
        assert(sections.deep_view().take(0) =~= Seq::<
            (Seq<char>, Seq<(Seq<char>, Seq<char>)>),
        >::empty());
    }
    while k < n
        invariant
            n == sections.len(),
            k <= n,
            m@ == schema_map_of_sections(sections.deep_view().take(k as int)),
        decreases n - k,
    {
        let section = &sections[k];
        let schema = parse_schema(&section.rows);
        let name = section.name.clone();
        proof {
            let ss = sections.deep_view();
            assert(ss.take(k as int + 1).drop_last() =~= ss.take(k as int));
            assert(ss.take(k as int + 1).last() == ss[k as int]);
            assert(ss[k as int] == sections@[k as int].deep_view());
        }
        m.insert(name, schema);
        k = k + 1;
    }
    proof {
        assert(sections.deep_view().take(n as int) =~= sections.deep_view());
    }
    m
}

} // verus!
