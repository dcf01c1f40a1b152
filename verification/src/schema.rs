//! Schemas of named, possibly nested fields, and the position of each action
//! kind inside the flattened column space of a log row.

use vstd::prelude::*;

verus! {

/// The type of a field.
#[derive(Debug, PartialEq, Eq)]
pub enum DataType {
    /// UTF-8 text.
    String,
    /// 32-bit signed integer.
    Integer,
    /// 64-bit signed integer.
    Long,
    /// Truth value.
    Boolean,
    /// List of strings.
    StringList,
    /// Map from string to string.
    StringMap,
    /// Nested record, in field order.
    Struct(Vec<Field>),
}

/// A named field of a schema.
#[derive(Debug, PartialEq, Eq)]
pub struct Field {
    pub name: String,
    pub data_type: DataType,
    pub nullable: bool,
}

/// An ordered sequence of named, possibly nested fields.
#[derive(Debug, PartialEq, Eq)]
pub struct StructType {
    pub fields: Vec<Field>,
}

/// The schema of a log row: one record for each action kind that the log
/// may hold.
pub type LogSchema = StructType;

/// What a [`DataType`] is, as mathematics.
pub enum DataTypeView {
    String,
    Integer,
    Long,
    Boolean,
    StringList,
    StringMap,
    Struct(Seq<FieldView>),
}

/// What a [`Field`] is, as mathematics.
pub struct FieldView {
    pub name: Seq<char>,
    pub data_type: DataTypeView,
    pub nullable: bool,
}

/// The view of a field.
pub open spec fn field_view(field: Field) -> FieldView
    decreases field,
{
    FieldView {
        name: field.name@,
        data_type: match field.data_type {
            DataType::String => DataTypeView::String,
            DataType::Integer => DataTypeView::Integer,
            DataType::Long => DataTypeView::Long,
            DataType::Boolean => DataTypeView::Boolean,
            DataType::StringList => DataTypeView::StringList,
            DataType::StringMap => DataTypeView::StringMap,
            DataType::Struct(inner) => DataTypeView::Struct(fields_view(inner@)),
        },
        nullable: field.nullable,
    }
}

/// The views of a sequence of fields, in order.
pub open spec fn fields_view(fields: Seq<Field>) -> Seq<FieldView>
    decreases fields,
{
    if fields.len() == 0 {
        Seq::empty()
    } else {
        fields_view(fields.drop_last()).push(field_view(fields.last()))
    }
}

/// The views of a sequence of fields are the views of its fields, one for
/// one.
pub proof fn lemma_fields_view(fields: Seq<Field>)
    ensures
        fields_view(fields).len() == fields.len(),
        forall|i: int| 0 <= i < fields.len() ==> fields_view(fields)[i] == field_view(fields[i]),
    decreases fields.len(),
{
    if fields.len() > 0 {
        lemma_fields_view(fields.drop_last());
    }
}

/// The views of a prefix are a prefix of the views.
pub proof fn lemma_fields_view_take(fields: Seq<Field>, k: int)
    requires
        0 <= k <= fields.len(),
    ensures
        fields_view(fields.take(k)) == fields_view(fields).take(k),
{
    lemma_fields_view(fields);
    lemma_fields_view(fields.take(k));
    assert(fields_view(fields.take(k)) =~= fields_view(fields).take(k));
}

impl View for DataType {
    type V = DataTypeView;

    open spec fn view(&self) -> DataTypeView {
        match self {
            DataType::String => DataTypeView::String,
            DataType::Integer => DataTypeView::Integer,
            DataType::Long => DataTypeView::Long,
            DataType::Boolean => DataTypeView::Boolean,
            DataType::StringList => DataTypeView::StringList,
            DataType::StringMap => DataTypeView::StringMap,
            DataType::Struct(inner) => DataTypeView::Struct(fields_view(inner@)),
        }
    }
}

impl View for Field {
    type V = FieldView;

    open spec fn view(&self) -> FieldView {
        field_view(*self)
    }
}

impl View for StructType {
    type V = Seq<FieldView>;

    open spec fn view(&self) -> Seq<FieldView> {
        fields_view(self.fields@)
    }
}

/// The fields nested directly in `field`: those of a record, and none for
/// any other field.
pub open spec fn children(field: FieldView) -> Seq<FieldView> {
    match field.data_type {
        DataTypeView::Struct(inner) => inner,
        _ => Seq::empty(),
    }
}

/// Number of leaf columns that `field` occupies once nested records are
/// flattened: one for a field that is no record, else the sum over the
/// record's fields.
pub open spec fn leaf_count(field: FieldView) -> nat
    decreases field,
{
    match field.data_type {
        DataTypeView::Struct(inner) => leaf_count_all(inner),
        _ => 1,
    }
}

/// Number of leaf columns that a sequence of fields occupies.
pub open spec fn leaf_count_all(fields: Seq<FieldView>) -> nat
    decreases fields,
{
    if fields.len() == 0 {
        0
    } else {
        leaf_count_all(fields.drop_last()) + leaf_count(fields.last())
    }
}

/// Leaf position at which the columns of the top-level field called `name`
/// begin: the leaf count of all fields in front of the last field of that
/// name, and 0 where no field has that name.
pub open spec fn offset_of(fields: Seq<FieldView>, name: Seq<char>) -> nat
    decreases fields.len(),
{
    if fields.len() == 0 {
        0
    } else if fields.last().name == name {
        leaf_count_all(fields.drop_last())
    } else {
        offset_of(fields.drop_last(), name)
    }
}

/// Whether some top-level field is called `name`.
pub open spec fn has_field(fields: Seq<FieldView>, name: Seq<char>) -> bool {
    exists|i: int| 0 <= i < fields.len() && (#[trigger] fields[i]).name == name
}

/// Names of the leaf columns of `field`, in flattened order.
pub open spec fn leaf_names(field: FieldView) -> Seq<Seq<char>>
    decreases field,
{
    match field.data_type {
        DataTypeView::Struct(inner) => leaf_names_all(inner),
        _ => seq![field.name],
    }
}

/// Names of the leaf columns of a sequence of fields, in flattened order.
pub open spec fn leaf_names_all(fields: Seq<FieldView>) -> Seq<Seq<char>>
    decreases fields,
{
    if fields.len() == 0 {
        Seq::empty()
    } else {
        leaf_names_all(fields.drop_last()) + leaf_names(fields.last())
    }
}

/// Types of the leaf columns of `field`, in flattened order.
pub open spec fn leaf_types(field: FieldView) -> Seq<DataTypeView>
    decreases field,
{
    match field.data_type {
        DataTypeView::Struct(inner) => leaf_types_all(inner),
        _ => seq![field.data_type],
    }
}

/// Types of the leaf columns of a sequence of fields, in flattened order.
pub open spec fn leaf_types_all(fields: Seq<FieldView>) -> Seq<DataTypeView>
    decreases fields,
{
    if fields.len() == 0 {
        Seq::empty()
    } else {
        leaf_types_all(fields.drop_last()) + leaf_types(fields.last())
    }
}

/// Whether `field` may be null, and every field nested in it as well.
pub open spec fn nullable_throughout(field: FieldView) -> bool
    decreases field,
{
    field.nullable && match field.data_type {
        DataTypeView::Struct(inner) => all_nullable(inner),
        _ => true,
    }
}

/// Whether every field of a sequence may be null, with all that is nested
/// in it.
pub open spec fn all_nullable(fields: Seq<FieldView>) -> bool
    decreases fields,
{
    if fields.len() == 0 {
        true
    } else {
        all_nullable(fields.drop_last()) && nullable_throughout(fields.last())
    }
}

/// Names of the fields of a sequence, in order.
pub open spec fn field_names(fields: Seq<FieldView>) -> Seq<Seq<char>> {
    Seq::new(fields.len(), |i: int| fields[i].name)
}

/// A prefix of a field sequence occupies no more leaves than the whole.
pub proof fn lemma_leaf_count_prefix(fields: Seq<FieldView>, k: int)
    requires
        0 <= k <= fields.len(),
    ensures
        leaf_count_all(fields.take(k)) <= leaf_count_all(fields),
    decreases fields.len(),
{
    if k == fields.len() {
        assert(fields.take(k) =~= fields);
    } else {
        lemma_leaf_count_prefix(fields.drop_last(), k);
        assert(fields.drop_last().take(k) =~= fields.take(k));
    }
}

/// Extending a prefix by one field adds that field's leaves.
pub proof fn lemma_leaf_count_step(fields: Seq<FieldView>, k: int)
    requires
        0 <= k < fields.len(),
    ensures
        leaf_count_all(fields.take(k + 1)) == leaf_count_all(fields.take(k)) + leaf_count(
            fields[k],
        ),
{
    assert(fields.take(k + 1).drop_last() =~= fields.take(k));
}

/// Every offset lies inside the flattened column space, and a field that the
/// schema lacks has offset 0.
pub proof fn lemma_offset_bounded(fields: Seq<FieldView>, name: Seq<char>)
    ensures
        offset_of(fields, name) <= leaf_count_all(fields),
        !has_field(fields, name) ==> offset_of(fields, name) == 0,
    decreases fields.len(),
{
    if fields.len() > 0 {
        lemma_offset_bounded(fields.drop_last(), name);
        if fields.last().name != name && !has_field(fields, name) {
            assert forall|i: int| 0 <= i < fields.drop_last().len() implies (
            #[trigger] fields.drop_last()[i]).name != name by {
                assert(fields[i].name != name);
            }
        }
    }
}

/// Extending a prefix by one field adds that field's name to the names it
/// holds.
pub proof fn lemma_has_field_step(fields: Seq<FieldView>, k: int, name: Seq<char>)
    requires
        0 <= k < fields.len(),
    ensures
        has_field(fields.take(k + 1), name) == (has_field(fields.take(k), name) || fields[k].name
            == name),
{
    let shorter = fields.take(k);
    let longer = fields.take(k + 1);
    if has_field(shorter, name) {
        let i = choose|i: int| 0 <= i < shorter.len() && (#[trigger] shorter[i]).name == name;
        assert(longer[i].name == name);
    }
    if fields[k].name == name {
        assert(longer[k].name == name);
    }
    if has_field(longer, name) {
        let i = choose|i: int| 0 <= i < longer.len() && (#[trigger] longer[i]).name == name;
        if i < k {
            assert(shorter[i].name == name);
        }
    }
}

/// Counts the leaf columns of `field`. `None` where the count exceeds what a
/// `usize` holds.
pub fn fields_in(field: &Field) -> (count: Option<usize>)
    ensures
        match count {
            Some(n) => n == leaf_count(field@),
            None => leaf_count(field@) > usize::MAX,
        },
    decreases *field,
{
    match &field.data_type {
        DataType::Struct(inner) => fields_in_all(inner),
        _ => Some(1),
    }
}

/// Counts the leaf columns of a sequence of fields. `None` where the count
/// exceeds what a `usize` holds.
pub fn fields_in_all(fields: &Vec<Field>) -> (count: Option<usize>)
    ensures
        match count {
            Some(n) => n == leaf_count_all(fields_view(fields@)),
            None => leaf_count_all(fields_view(fields@)) > usize::MAX,
        },
    decreases *fields,
{
    let ghost views = fields_view(fields@);
    proof {
        lemma_fields_view(fields@);
    }
    let mut total: usize = 0;
    let mut i: usize = 0;
    while i < fields.len()
        invariant
            i <= fields.len(),
            views == fields_view(fields@),
            views.len() == fields@.len(),
            forall|j: int| 0 <= j < fields@.len() ==> views[j] == field_view(fields@[j]),
            total == leaf_count_all(views.take(i as int)),
        decreases fields.len() - i,
    {
        proof {
            lemma_leaf_count_step(views, i as int);
            lemma_leaf_count_prefix(views, i + 1);
            assert(decreases_to!(*fields => fields[i as int]));
        }
        let next = match fields_in(&fields[i]) {
            Some(n) => total.checked_add(n),
            None => None,
        };
        match next {
            Some(sum) => {
                total = sum;
            },
            None => {
                return None;
            },
        }
        i += 1;
    }
    assert(views.take(i as int) =~= views);
    Some(total)
}

impl Field {
    /// A field of the given name and type.
    pub fn new(name: &str, data_type: DataType, nullable: bool) -> (field: Field)
        ensures
            field.name@ == name@,
            field.data_type == data_type,
            field.nullable == nullable,
            field@ == (FieldView { name: name@, data_type: data_type@, nullable }),
    {
        Field { name: String::from_str(name), data_type, nullable }
    }

    /// Whether the field is called `name`.
    pub fn is_named(&self, name: &str) -> (same: bool)
        ensures
            same == (self@.name == name@),
    {
        let wanted = String::from_str(name);
        self.name == wanted
    }
}

impl StructType {
    /// The schema with the given fields, in the given order.
    pub fn new(fields: Vec<Field>) -> (schema: StructType)
        ensures
            schema.fields == fields,
            schema@ == fields_view(fields@),
    {
        StructType { fields }
    }

    /// Number of leaf columns of the schema.
    pub open spec fn leaf_count(self) -> nat {
        leaf_count_all(self@)
    }
}

/// Where the columns of each action kind begin in the flattened column space
/// of a log row, and which kinds the schema holds at all. The offset of a
/// kind that the schema lacks is 0 and stands for no column: such a kind is
/// never looked for in a row.
#[derive(Debug, Clone, Copy, PartialEq, Eq, Structural)]
pub struct ActionOffsets {
    pub add: usize,
    pub remove: usize,
    pub metadata: usize,
    pub protocol: usize,
    pub txn: usize,
    pub has_add: bool,
    pub has_remove: bool,
    pub has_metadata: bool,
    pub has_protocol: bool,
    pub has_txn: bool,
}

impl ActionOffsets {
    /// Whether these are the offsets of the five action fields in a schema
    /// with the fields `schema`.
    pub open spec fn describes(self, schema: Seq<FieldView>) -> bool {
        &&& self.add == offset_of(schema, "add"@)
        &&& self.remove == offset_of(schema, "remove"@)
        &&& self.metadata == offset_of(schema, "metaData"@)
        &&& self.protocol == offset_of(schema, "protocol"@)
        &&& self.txn == offset_of(schema, "txn"@)
        &&& self.has_add == has_field(schema, "add"@)
        &&& self.has_remove == has_field(schema, "remove"@)
        &&& self.has_metadata == has_field(schema, "metaData"@)
        &&& self.has_protocol == has_field(schema, "protocol"@)
        &&& self.has_txn == has_field(schema, "txn"@)
    }

    /// Computes the offsets of the five action fields in one pass over the
    /// top-level fields. `None` where the schema has more leaf columns than a
    /// `usize` counts.
    pub fn for_schema(schema: &StructType) -> (offsets: Option<ActionOffsets>)
        ensures
            match offsets {
                Some(o) => o.describes(schema@) && schema.leaf_count() <= usize::MAX,
                None => schema.leaf_count() > usize::MAX,
            },
    {
        let ghost views = schema@;
        proof {
            lemma_fields_view(schema.fields@);
        }
        let mut offset: usize = 0;
        let mut found = ActionOffsets {
            add: 0,
            remove: 0,
            metadata: 0,
            protocol: 0,
            txn: 0,
            has_add: false,
            has_remove: false,
            has_metadata: false,
            has_protocol: false,
            has_txn: false,
        };
        assert(views.take(0).len() == 0);
        let mut i: usize = 0;
        while i < schema.fields.len()
            invariant
                i <= schema.fields.len(),
                views == schema@,
                views.len() == schema.fields@.len(),
                forall|j: int|
                    0 <= j < schema.fields@.len() ==> views[j] == field_view(schema.fields@[j]),
                offset == leaf_count_all(views.take(i as int)),
                found.add == offset_of(views.take(i as int), "add"@),
                found.remove == offset_of(views.take(i as int), "remove"@),
                found.metadata == offset_of(views.take(i as int), "metaData"@),
                found.protocol == offset_of(views.take(i as int), "protocol"@),
                found.txn == offset_of(views.take(i as int), "txn"@),
                found.has_add == has_field(views.take(i as int), "add"@),
                found.has_remove == has_field(views.take(i as int), "remove"@),
                found.has_metadata == has_field(views.take(i as int), "metaData"@),
                found.has_protocol == has_field(views.take(i as int), "protocol"@),
                found.has_txn == has_field(views.take(i as int), "txn"@),
            decreases schema.fields.len() - i,
        {
            let field = &schema.fields[i];
            proof {
                lemma_leaf_count_step(views, i as int);
                lemma_leaf_count_prefix(views, i + 1);
                assert(views.take(i + 1).drop_last() =~= views.take(i as int));
                assert(views.take(i + 1).last() == field@);
                lemma_has_field_step(views, i as int, "add"@);
                lemma_has_field_step(views, i as int, "remove"@);
                lemma_has_field_step(views, i as int, "metaData"@);
                lemma_has_field_step(views, i as int, "protocol"@);
                lemma_has_field_step(views, i as int, "txn"@);
            }
            if field.is_named("add") {
                found.add = offset;
                found.has_add = true;
            }
            if field.is_named("remove") {
                found.remove = offset;
                found.has_remove = true;
            }
            if field.is_named("metaData") {
                found.metadata = offset;
                found.has_metadata = true;
            }
            if field.is_named("protocol") {
                found.protocol = offset;
                found.has_protocol = true;
            }
            if field.is_named("txn") {
                found.txn = offset;
                found.has_txn = true;
            }
            let next = match fields_in(field) {
                Some(n) => offset.checked_add(n),
                None => None,
            };
            match next {
                Some(sum) => {
                    offset = sum;
                },
                None => {
                    return None;
                },
            }
            i += 1;
        }
        assert(views.take(i as int) =~= views);
        Some(found)
    }
}

/// Offsets are a function of the schema alone: whatever two computations over
/// schemas that hold the same fields hand back is the same.
pub proof fn lemma_offsets_repeatable(
    schema: Seq<FieldView>,
    first: ActionOffsets,
    second: ActionOffsets,
)
    requires
        first.describes(schema),
        second.describes(schema),
    ensures
        first == second,
{
}

} // verus!
