//! The intermediate representation of a configuration document, and the
//! serializer that renders it as text.

use crate::text::same_text;
use vstd::prelude::*;
use vstd::string::*;

verus! {

/// A rendered document: blocks of text, one after the other.
#[derive(Debug)]
pub struct Terraform(pub String);

impl View for Terraform {
    type V = Seq<char>;

    open spec fn view(&self) -> Seq<char> {
        self.0@
    }
}

/// Two documents put together: the first, a line break, the second.
pub open spec fn combined(a: Seq<char>, b: Seq<char>) -> Seq<char> {
    a + "\n"@ + b
}

impl Terraform {
    /// The document that holds this one's blocks and then the other's.
    pub fn combine(&self, other: &Terraform) -> (r: Terraform)
        ensures
            r@ == combined(self@, other@),
    {
        let mut s = self.0.clone();
        s.append("\n");
        s.append(other.0.as_str());
        Terraform(s)
    }

    /// The text of the document.
    pub fn to_string(&self) -> (s: String)
        ensures
            s@ == self@,
    {
        self.0.clone()
    }
}

impl Clone for Terraform {
    fn clone(&self) -> (r: Self)
        ensures
            r == *self,
    {
        Terraform(self.0.clone())
    }
}

impl Default for Terraform {
    fn default() -> (r: Self)
        ensures
            r@ == Seq::<char>::empty(),
    {
        Terraform(String::new())
    }
}

/// Putting documents together is associative: only the order of the blocks
/// counts, not how they were grouped.
pub proof fn lemma_combined_associative(a: Seq<char>, b: Seq<char>, c: Seq<char>)
    ensures
        combined(combined(a, b), c) == combined(a, combined(b, c)),
{
    assert(combined(combined(a, b), c) =~= combined(a, combined(b, c)));
}

/// Whether a block declares a managed resource or reads an existing one.
#[derive(Clone, Copy, Debug, PartialEq, Eq, Structural)]
pub enum TfDataType {
    Resource,
    Data,
}

/// A reference to an attribute of another block.
#[derive(Debug)]
pub enum TfVar {
    Resource { resource_name: String, resource_identifier: String, field: String },
    Data { data_name: String, data_identifier: String, field: String },
}

/// What a reference says: the kind of block, its type, its identifier and
/// the attribute.
pub struct VarView {
    pub data_type: TfDataType,
    pub kind_name: Seq<char>,
    pub identifier: Seq<char>,
    pub field: Seq<char>,
}

impl View for TfVar {
    type V = VarView;

    open spec fn view(&self) -> VarView {
        match self {
            TfVar::Resource { resource_name, resource_identifier, field } => VarView {
                data_type: TfDataType::Resource,
                kind_name: resource_name@,
                identifier: resource_identifier@,
                field: field@,
            },
            TfVar::Data { data_name, data_identifier, field } => VarView {
                data_type: TfDataType::Data,
                kind_name: data_name@,
                identifier: data_identifier@,
                field: field@,
            },
        }
    }
}

/// How a block is addressed from elsewhere: `type.identifier`, with `data.`
/// in front where the block reads an existing resource.
pub open spec fn render_address(
    data_type: TfDataType,
    kind_name: Seq<char>,
    identifier: Seq<char>,
) -> Seq<char> {
    match data_type {
        TfDataType::Resource => kind_name + "."@ + identifier,
        TfDataType::Data => "data."@ + kind_name + "."@ + identifier,
    }
}

/// A reference as a dotted path: the block's address, then the attribute.
pub open spec fn render_var(v: VarView) -> Seq<char> {
    render_address(v.data_type, v.kind_name, v.identifier) + "."@ + v.field
}

/// Writes the address of a block.
pub fn address(data_type: TfDataType, kind_name: &str, identifier: &str) -> (s: String)
    ensures
        s@ == render_address(data_type, kind_name@, identifier@),
{
    match data_type {
        TfDataType::Resource => {
            let mut s = kind_name.to_owned();
            s.append(".");
            s.append(identifier);
            s
        },
        TfDataType::Data => {
            let mut s = "data.".to_owned();
            s.append(kind_name);
            s.append(".");
            s.append(identifier);
            s
        },
    }
}

/// Makes the reference to an attribute of a block.
pub fn reference(data_type: TfDataType, kind_name: &str, identifier: &str, field: &str) -> (v:
    TfVar)
    ensures
        v@ == (VarView { data_type, kind_name: kind_name@, identifier: identifier@, field: field@ }),
{
    match data_type {
        TfDataType::Resource => TfVar::Resource {
            resource_name: kind_name.to_owned(),
            resource_identifier: identifier.to_owned(),
            field: field.to_owned(),
        },
        TfDataType::Data => TfVar::Data {
            data_name: kind_name.to_owned(),
            data_identifier: identifier.to_owned(),
            field: field.to_owned(),
        },
    }
}

impl TfVar {
    /// Renders the reference as a dotted path.
    pub fn to_tf_string(&self) -> (s: String)
        ensures
            s@ == render_var(self@),
    {
        match self {
            TfVar::Resource { resource_name, resource_identifier, field } => {
                let mut s = address(
                    TfDataType::Resource,
                    resource_name.as_str(),
                    resource_identifier.as_str(),
                );
                s.append(".");
                s.append(field.as_str());
                s
            },
            TfVar::Data { data_name, data_identifier, field } => {
                let mut s = address(TfDataType::Data, data_name.as_str(), data_identifier.as_str());
                s.append(".");
                s.append(field.as_str());
                s
            },
        }
    }
}

impl Clone for TfVar {
    fn clone(&self) -> (r: Self)
        ensures
            r == *self,
    {
        match self {
            TfVar::Resource { resource_name, resource_identifier, field } => TfVar::Resource {
                resource_name: resource_name.clone(),
                resource_identifier: resource_identifier.clone(),
                field: field.clone(),
            },
            TfVar::Data { data_name, data_identifier, field } => TfVar::Data {
                data_name: data_name.clone(),
                data_identifier: data_identifier.clone(),
                field: field.clone(),
            },
        }
    }
}

/// The value of an attribute.
///
/// An `Object` holds named values. Their order is the order in which they
/// are written out; it carries no meaning. Every named value is written,
/// also where a name stands twice: `TfField::object` makes an `Object` in
/// which none does, and `names_once` says of a value that none does at any
/// depth.
#[derive(Debug)]
pub enum TfField {
    Raw(String),
    Variable(TfVar),
    String(String),
    List(Vec<TfField>),
    Object(Vec<(String, TfField)>),
}

/// What an attribute value says.
pub enum FieldView {
    Raw(Seq<char>),
    Variable(VarView),
    String(Seq<char>),
    List(Seq<FieldView>),
    Object(Seq<(Seq<char>, FieldView)>),
}

/// What each value of a list says.
pub open spec fn field_views(l: Seq<TfField>) -> Seq<FieldView>
    decreases l,
{
    Seq::new(
        l.len(),
        |i: int|
            if 0 <= i < l.len() {
                l[i]@
            } else {
                arbitrary()
            },
    )
}

/// What each named value says.
pub open spec fn entry_views(m: Seq<(String, TfField)>) -> Seq<(Seq<char>, FieldView)>
    decreases m,
{
    Seq::new(
        m.len(),
        |i: int|
            if 0 <= i < m.len() {
                (m[i].0@, m[i].1@)
            } else {
                arbitrary()
            },
    )
}

impl View for TfField {
    type V = FieldView;

    open spec fn view(&self) -> FieldView
        decreases self,
    {
        match self {
            TfField::Raw(s) => FieldView::Raw(s@),
            TfField::Variable(v) => FieldView::Variable(v@),
            TfField::String(s) => FieldView::String(s@),
            TfField::List(l) => FieldView::List(field_views(l@)),
            TfField::Object(m) => FieldView::Object(entry_views(m@)),
        }
    }
}

/// What stands between a name and its value: an equals sign, except before
/// a nested block.
pub open spec fn eq_prefix(v: FieldView) -> Seq<char> {
    match v {
        FieldView::Object(_) => Seq::<char>::empty(),
        _ => "= "@,
    }
}

/// The text of a value. Quoted text is wrapped in quotes and not escaped;
/// raw text stands as it is.
pub open spec fn render_field(v: FieldView) -> Seq<char>
    decreases v, 0nat,
{
    match v {
        FieldView::Raw(s) => s,
        FieldView::Variable(var) => render_var(var),
        FieldView::String(s) => "\""@ + s + "\""@,
        FieldView::List(l) => "["@ + render_items(l) + "]"@,
        FieldView::Object(m) => render_object(m),
    }
}

/// The values of a list, with a comma and a space between neighbours.
pub open spec fn render_items(l: Seq<FieldView>) -> Seq<char>
    decreases l, 0nat,
{
    if l.len() == 0 {
        Seq::<char>::empty()
    } else if l.len() == 1 {
        render_field(l[0])
    } else {
        render_items(l.drop_last()) + ", "@ + render_field(l.last())
    }
}

/// One named value: the name, a space, the equals sign where one belongs,
/// and the value.
pub open spec fn render_entry(key: Seq<char>, v: FieldView) -> Seq<char>
    decreases v, 1nat,
{
    key + " "@ + eq_prefix(v) + render_field(v)
}

/// The named values, each on a line of its own.
pub open spec fn render_entries(m: Seq<(Seq<char>, FieldView)>) -> Seq<char>
    decreases m, 0nat,
{
    if m.len() == 0 {
        Seq::<char>::empty()
    } else if m.len() == 1 {
        render_entry(m[0].0, m[0].1)
    } else {
        render_entries(m.drop_last()) + "\n\t"@ + render_entry(m.last().0, m.last().1)
    }
}

/// Named values between braces.
pub open spec fn render_object(m: Seq<(Seq<char>, FieldView)>) -> Seq<char>
    decreases m, 1nat,
{
    "{\n\t"@ + render_entries(m) + "\n}"@
}

/// Whether no name stands twice among the named values of any object in
/// the value.
pub open spec fn names_once(v: FieldView) -> bool
    decreases v,
{
    match v {
        FieldView::List(l) => forall|i: int| 0 <= i < l.len() ==> names_once(#[trigger] l[i]),
        FieldView::Object(m) => distinct_keys(m) && forall|i: int|
            0 <= i < m.len() ==> names_once((#[trigger] m[i]).1),
        _ => true,
    }
}

/// The named values gathered one after the other: a name that comes again
/// keeps its place and takes the later value.
pub open spec fn collected(entries: Seq<(Seq<char>, FieldView)>) -> Seq<(Seq<char>, FieldView)>
    decreases entries.len(),
{
    if entries.len() == 0 {
        Seq::empty()
    } else {
        with_field(collected(entries.drop_last()), entries.last().0, entries.last().1)
    }
}

/// Among gathered values no name stands twice.
pub proof fn lemma_collected_distinct(entries: Seq<(Seq<char>, FieldView)>)
    ensures
        distinct_keys(collected(entries)),
    decreases entries.len(),
{
    if entries.len() > 0 {
        lemma_collected_distinct(entries.drop_last());
        lemma_with_field_distinct(
            collected(entries.drop_last()),
            entries.last().0,
            entries.last().1,
        );
    }
}

fn write_items(l: &Vec<TfField>) -> (s: String)
    ensures
        s@ == "["@ + render_items(field_views(l@)) + "]"@,
    decreases l,
{
    let mut items = String::new();
    let mut i: usize = 0;
    while i < l.len()
        invariant
            i <= l.len(),
            items@ == render_items(field_views(l@).take(i as int)),
        decreases l.len() - i,
    {
        let ghost now = field_views(l@).take(i + 1);
        proof {
            assert(now.drop_last() =~= field_views(l@).take(i as int));
            assert(now.last() == l@[i as int]@);
        }
        if i > 0 {
            items.append(", ");
        }
        items.append(l[i].to_tf_string().as_str());
        proof {
            if i == 0 {
                assert(items@ =~= render_field(now[0]));
            }
        }
        i += 1;
    }
    proof {
        assert(field_views(l@).take(l.len() as int) =~= field_views(l@));
    }
    let mut s = "[".to_owned();
    s.append(items.as_str());
    s.append("]");
    s
}

fn write_entries(m: &Vec<(String, TfField)>) -> (s: String)
    ensures
        s@ == render_object(entry_views(m@)),
    decreases m,
{
    let mut s = "{\n\t".to_owned();
    let mut lines = String::new();
    let mut i: usize = 0;
    while i < m.len()
        invariant
            i <= m.len(),
            lines@ == render_entries(entry_views(m@).take(i as int)),
        decreases m.len() - i,
    {
        let ghost now = entry_views(m@).take(i + 1);
        proof {
            assert(now.drop_last() =~= entry_views(m@).take(i as int));
            assert(now.last() == (m@[i as int].0@, m@[i as int].1@));
        }
        if i > 0 {
            lines.append("\n\t");
        }
        let value = &m[i].1;
        lines.append(m[i].0.as_str());
        lines.append(" ");
        lines.append(value.eq_prefix().as_str());
        lines.append(value.to_tf_string().as_str());
        proof {
            let line = render_entry(now.last().0, now.last().1);
            if i == 0 {
                assert(lines@ =~= line);
            } else {
                assert(lines@ =~= render_entries(now.drop_last()) + "\n\t"@ + line);
            }
        }
        i += 1;
    }
    proof {
        assert(entry_views(m@).take(m.len() as int) =~= entry_views(m@));
    }
    s.append(lines.as_str());
    s.append("\n}");
    s
}

impl TfField {
    /// An object of these named values. A name that comes again keeps its
    /// place and takes the later value, so that no name stands twice.
    pub fn object(entries: Vec<(String, TfField)>) -> (f: TfField)
        ensures
            f@ == FieldView::Object(collected(entry_views(entries@))),
            distinct_keys(collected(entry_views(entries@))),
    {
        let ghost given = entry_views(entries@);
        let n = entries.len();
        let mut rest = entries;
        let mut reversed: Vec<(String, TfField)> = Vec::new();
        while rest.len() > 0
            invariant
                rest.len() + reversed.len() == n,
                n == given.len(),
                entry_views(rest@) == given.take(rest.len() as int),
                forall|k: int|
                    0 <= k < reversed.len() ==> (#[trigger] entry_views(reversed@)[k]) == given[n
                        - 1 - k],
            decreases rest.len(),
        {
            let ghost before = entry_views(reversed@);
            let ghost held = entry_views(rest@);
            let entry = rest.pop().unwrap();
            let ghost entry_view = (entry.0@, entry.1@);
            assert(entry_view == held[held.len() - 1]);
            reversed.push(entry);
            proof {
                assert(entry_views(reversed@) =~= before.push(entry_view));
                assert(entry_views(rest@) =~= given.take(rest.len() as int));
            }
        }
        let mut kept: Vec<(String, TfField)> = Vec::new();
        proof {
            assert(given.take(0) =~= Seq::empty());
            assert(entry_views(kept@) =~= collected(given.take(0)));
        }
        while reversed.len() > 0
            invariant
                reversed.len() <= n,
                n == given.len(),
                forall|k: int|
                    0 <= k < reversed.len() ==> (#[trigger] entry_views(reversed@)[k]) == given[n
                        - 1 - k],
                entry_views(kept@) == collected(given.take(n - reversed.len())),
            decreases reversed.len(),
        {
            let ghost at = n - reversed.len();
            let ghost before = entry_views(kept@);
            let ghost pending = entry_views(reversed@);
            assert(pending[reversed.len() - 1] == given[at]);
            let entry = reversed.pop().unwrap();
            let ghost entry_view = (entry.0@, entry.1@);
            assert(entry_view == pending[pending.len() - 1]);
            proof {
                assert(given.take(at + 1).drop_last() =~= given.take(at));
                assert(given.take(at + 1).last() == given[at]);
                assert forall|k: int| 0 <= k < reversed.len() implies (#[trigger] entry_views(
                    reversed@,
                )[k]) == given[n - 1 - k] by {
                    assert(entry_views(reversed@)[k] == pending[k]);
                }
            }
            match find_key(&kept, entry.0.as_str()) {
                Some(k) => {
                    kept.set(k, entry);
                    proof {
                        let c = key_index(before, entry_view.0);
                        assert(first_at(before, entry_view.0, c));
                        assert(c == k);
                        assert(entry_views(kept@) =~= before.update(k as int, entry_view));
                    }
                },
                None => {
                    kept.push(entry);
                    assert(entry_views(kept@) =~= before.push(entry_view));
                },
            }
        }
        proof {
            assert(given.take(n as int) =~= given);
            lemma_collected_distinct(given);
        }
        TfField::Object(kept)
    }

    /// What stands between the name and this value.
    pub fn eq_prefix(&self) -> (s: String)
        ensures
            s@ == eq_prefix(self@),
    {
        match self {
            TfField::Object(_) => String::new(),
            _ => "= ".to_owned(),
        }
    }

    /// Renders the value.
    pub fn to_tf_string(&self) -> (s: String)
        ensures
            s@ == render_field(self@),
        decreases self,
    {
        match self {
            TfField::Raw(raw) => raw.clone(),
            TfField::Variable(v) => v.to_tf_string(),
            TfField::String(text) => {
                let mut s = "\"".to_owned();
                s.append(text.as_str());
                s.append("\"");
                s
            },
            TfField::List(l) => write_items(l),
            TfField::Object(m) => write_entries(m),
        }
    }
}

/// What an entity of the stack tells the serializer about its block.
pub trait TerraformEntity {
    /// The identifier of the block.
    spec fn spec_tf_identifier(&self) -> Seq<char>;

    /// The declared type of the block.
    spec fn spec_tf_type() -> Seq<char>;

    /// Whether the block declares a resource or reads one.
    spec fn spec_data_type() -> TfDataType;

    /// The reference to an attribute of the block.
    fn var(&self, field: &str) -> (v: TfVar)
        ensures
            v@ == (VarView {
                data_type: Self::spec_data_type(),
                kind_name: Self::spec_tf_type(),
                identifier: self.spec_tf_identifier(),
                field: field@,
            }),
    ;

    fn tf_identifier(&self) -> (s: String)
        ensures
            s@ == self.spec_tf_identifier(),
    ;

    fn tf_type() -> (s: &'static str)
        ensures
            s@ == Self::spec_tf_type(),
    ;

    fn data_type() -> (d: TfDataType)
        ensures
            d == Self::spec_data_type(),
    ;
}

/// An output of the document. It has nothing to say yet.
#[derive(Debug)]
pub struct TfOutput {}

/// One block of the document: its kind, its declared type, its identifier
/// and its named values. No name occurs twice.
#[derive(Debug)]
pub struct TfResource {
    tf_type: String,
    resource_name: String,
    resource_identifier: String,
    fields: Vec<(String, TfField)>,
}

/// What a block says.
pub struct ResourceView {
    pub tf_type: Seq<char>,
    pub resource_name: Seq<char>,
    pub resource_identifier: Seq<char>,
    pub fields: Seq<(Seq<char>, FieldView)>,
}

/// No name occurs twice among the named values.
pub open spec fn distinct_keys(fields: Seq<(Seq<char>, FieldView)>) -> bool {
    forall|i: int, j: int| 0 <= i < j < fields.len() ==> (#[trigger] fields[i]).0 != (
    #[trigger] fields[j]).0
}

/// `i` is the first place at which `key` names a value.
pub open spec fn first_at(fields: Seq<(Seq<char>, FieldView)>, key: Seq<char>, i: int) -> bool {
    &&& 0 <= i < fields.len()
    &&& fields[i].0 == key
    &&& forall|j: int| 0 <= j < i ==> (#[trigger] fields[j]).0 != key
}

/// Whether `key` names a value.
pub open spec fn has_key(fields: Seq<(Seq<char>, FieldView)>, key: Seq<char>) -> bool {
    exists|i: int| first_at(fields, key, i)
}

/// The first place at which `key` names a value, where it names one.
pub open spec fn key_index(fields: Seq<(Seq<char>, FieldView)>, key: Seq<char>) -> int {
    choose|i: int| first_at(fields, key, i)
}

/// The named values after `key` was given `value`: in the place of the old
/// value where the name was there, at the end where it was not.
pub open spec fn with_field(
    fields: Seq<(Seq<char>, FieldView)>,
    key: Seq<char>,
    value: FieldView,
) -> Seq<(Seq<char>, FieldView)> {
    if has_key(fields, key) {
        fields.update(key_index(fields, key), (key, value))
    } else {
        fields.push((key, value))
    }
}

/// Whether one more dependency can be noted down: the name `depends_on` is
/// free, or it names a list.
pub open spec fn accepts_dependency(fields: Seq<(Seq<char>, FieldView)>) -> bool {
    has_key(fields, "depends_on"@) ==> fields[key_index(fields, "depends_on"@)].1 is List
}

/// The dependencies noted down so far, in the order in which they came.
pub open spec fn dependencies(fields: Seq<(Seq<char>, FieldView)>) -> Seq<FieldView> {
    if has_key(fields, "depends_on"@) && fields[key_index(fields, "depends_on"@)].1 is List {
        fields[key_index(fields, "depends_on"@)].1->List_0
    } else {
        Seq::<FieldView>::empty()
    }
}

/// The named values after one more dependency was noted down, as the raw
/// text `address`.
pub open spec fn with_dependency(fields: Seq<(Seq<char>, FieldView)>, address: Seq<char>) -> Seq<
    (Seq<char>, FieldView),
> {
    with_field(
        fields,
        "depends_on"@,
        FieldView::List(dependencies(fields).push(FieldView::Raw(address))),
    )
}

/// The text of a block: kind, quoted type, quoted identifier, and the named
/// values between braces.
pub open spec fn render_block(r: ResourceView) -> Seq<char> {
    r.tf_type + " \""@ + r.resource_name + "\" \""@ + r.resource_identifier + "\" "@
        + render_object(r.fields) + "\n"@
}

fn find_key(fields: &Vec<(String, TfField)>, key: &str) -> (r: Option<usize>)
    ensures
        match r {
            Some(i) => first_at(entry_views(fields@), key@, i as int),
            None => !has_key(entry_views(fields@), key@),
        },
{
    let mut i: usize = 0;
    while i < fields.len()
        invariant
            i <= fields.len(),
            forall|j: int| 0 <= j < i ==> (#[trigger] entry_views(fields@)[j]).0 != key@,
        decreases fields.len() - i,
    {
        if same_text(fields[i].0.as_str(), key) {
            return Some(i);
        }
        i += 1;
    }
    None
}

/// Giving a name a value keeps the names distinct.
pub proof fn lemma_with_field_distinct(
    fields: Seq<(Seq<char>, FieldView)>,
    key: Seq<char>,
    value: FieldView,
)
    requires
        distinct_keys(fields),
    ensures
        distinct_keys(with_field(fields, key, value)),
{
    let after = with_field(fields, key, value);
    if has_key(fields, key) {
        let k = key_index(fields, key);
        assert forall|i: int, j: int| 0 <= i < j < after.len() implies (#[trigger] after[i]).0 != (
        #[trigger] after[j]).0 by {
            assert(fields[i].0 != fields[j].0);
            assert(fields[k].0 == key);
        }
    } else {
        assert forall|i: int, j: int| 0 <= i < j < after.len() implies (#[trigger] after[i]).0 != (
        #[trigger] after[j]).0 by {
            if j == fields.len() {
                if fields[i].0 == key {
                    lemma_has_key(fields, key, i);
                }
            } else {
                assert(fields[i].0 != fields[j].0);
            }
        }
    }
}

/// A name that is not there yet goes to the end.
pub proof fn lemma_with_field_fresh(
    fields: Seq<(Seq<char>, FieldView)>,
    key: Seq<char>,
    value: FieldView,
)
    requires
        forall|i: int| 0 <= i < fields.len() ==> (#[trigger] fields[i]).0 != key,
    ensures
        !has_key(fields, key),
        with_field(fields, key, value) == fields.push((key, value)),
{
}

/// Noting down a dependency where `base` holds none yet, and then more of
/// them, keeps one list behind the values of `base`.
pub proof fn lemma_note_dependency(
    base: Seq<(Seq<char>, FieldView)>,
    listed: Seq<FieldView>,
    address: Seq<char>,
)
    requires
        forall|i: int| 0 <= i < base.len() ==> (#[trigger] base[i]).0 != "depends_on"@,
    ensures
        accepts_dependency(base),
        accepts_dependency(base.push(("depends_on"@, FieldView::List(listed)))),
        with_dependency(base, address) == base.push(
            ("depends_on"@, FieldView::List(seq![FieldView::Raw(address)])),
        ),
        with_dependency(base.push(("depends_on"@, FieldView::List(listed))), address)
            == base.push(("depends_on"@, FieldView::List(listed.push(FieldView::Raw(address))))),
        dependencies(base) == Seq::<FieldView>::empty(),
        dependencies(base.push(("depends_on"@, FieldView::List(listed)))) == listed,
{
    let key = "depends_on"@;
    lemma_with_field_fresh(base, key, FieldView::List(seq![FieldView::Raw(address)]));
    assert(Seq::<FieldView>::empty().push(FieldView::Raw(address)) =~= seq![
        FieldView::Raw(address),
    ]);
    let fields = base.push((key, FieldView::List(listed)));
    let at = base.len() as int;
    assert(first_at(fields, key, at));
    let k = key_index(fields, key);
    assert(first_at(fields, key, k));
    assert(k == at);
    assert(fields.update(at, (key, FieldView::List(listed.push(FieldView::Raw(address)))))
        =~= base.push((key, FieldView::List(listed.push(FieldView::Raw(address))))));
}

/// A name that stands somewhere among the named values names a value.
pub proof fn lemma_has_key(fields: Seq<(Seq<char>, FieldView)>, key: Seq<char>, i: int)
    requires
        0 <= i < fields.len(),
        fields[i].0 == key,
    ensures
        has_key(fields, key),
        key_index(fields, key) <= i,
        first_at(fields, key, key_index(fields, key)),
    decreases i,
{
    if exists|j: int| 0 <= j < i && (#[trigger] fields[j]).0 == key {
        let j = choose|j: int| 0 <= j < i && (#[trigger] fields[j]).0 == key;
        lemma_has_key(fields, key, j);
    } else {
        assert(first_at(fields, key, i));
    }
}

impl View for TfResource {
    type V = ResourceView;

    closed spec fn view(&self) -> ResourceView {
        ResourceView {
            tf_type: self.tf_type@,
            resource_name: self.resource_name@,
            resource_identifier: self.resource_identifier@,
            fields: entry_views(self.fields@),
        }
    }
}

impl TfResource {
    #[verifier::type_invariant]
    spec fn names_distinct(&self) -> bool {
        distinct_keys(entry_views(self.fields@))
    }

    /// A block that declares a managed resource, with no values yet.
    pub fn new_resource(resource_name: &str, resource_identifier: &str) -> (r: Self)
        ensures
            r@ == (ResourceView {
                tf_type: "resource"@,
                resource_name: resource_name@,
                resource_identifier: resource_identifier@,
                fields: Seq::empty(),
            }),
    {
        let r = Self {
            resource_name: resource_name.to_owned(),
            resource_identifier: resource_identifier.to_owned(),
            fields: Vec::new(),
            tf_type: "resource".to_owned(),
        };
        assert(r@.fields =~= Seq::empty());
        r
    }

    /// A block that reads an existing resource, with no values yet.
    pub fn new_data(resource_name: &str, resource_identifier: &str) -> (r: Self)
        ensures
            r@ == (ResourceView {
                tf_type: "data"@,
                resource_name: resource_name@,
                resource_identifier: resource_identifier@,
                fields: Seq::empty(),
            }),
    {
        let r = Self {
            resource_name: resource_name.to_owned(),
            resource_identifier: resource_identifier.to_owned(),
            fields: Vec::new(),
            tf_type: "data".to_owned(),
        };
        assert(r@.fields =~= Seq::empty());
        r
    }

    /// Gives the name a value. A value that the name had before is replaced.
    pub fn add_field(&mut self, field_name: &str, field_value: TfField)
        ensures
            final(self)@ == (ResourceView {
                fields: with_field(old(self)@.fields, field_name@, field_value@),
                ..old(self)@
            }),
            distinct_keys(final(self)@.fields),
    {
        proof {
            use_type_invariant(&*self);
            lemma_with_field_distinct(old(self)@.fields, field_name@, field_value@);
        }
        let ghost before = entry_views(self.fields@);
        let mut fields: Vec<(String, TfField)> = Vec::new();
        std::mem::swap(&mut self.fields, &mut fields);
        match find_key(&fields, field_name) {
            Some(i) => {
                fields.set(i, (field_name.to_owned(), field_value));
                assert(entry_views(fields@) =~= before.update(
                    i as int,
                    (field_name@, field_value@),
                ));
            },
            None => {
                fields.push((field_name.to_owned(), field_value));
                assert(entry_views(fields@) =~= before.push((field_name@, field_value@)));
            },
        }
        self.fields = fields;
    }

    /// Notes down that this block can be made only after `depends_on`.
    pub fn depends_on<T: TerraformEntity>(&mut self, depends_on: &T)
        requires
            accepts_dependency(old(self)@.fields),
        ensures
            final(self)@ == (ResourceView {
                fields: with_dependency(
                    old(self)@.fields,
                    render_address(
                        T::spec_data_type(),
                        T::spec_tf_type(),
                        depends_on.spec_tf_identifier(),
                    ),
                ),
                ..old(self)@
            }),
            distinct_keys(final(self)@.fields),
            accepts_dependency(final(self)@.fields),
    {
        let identifier = depends_on.tf_identifier();
        let var = address(T::data_type(), T::tf_type(), identifier.as_str());
        self.add_dependency(var);
    }

    /// Notes down a dependency on the block at `address`.
    pub fn add_dependency(&mut self, address: String)
        requires
            accepts_dependency(old(self)@.fields),
        ensures
            final(self)@ == (ResourceView {
                fields: with_dependency(old(self)@.fields, address@),
                ..old(self)@
            }),
            distinct_keys(final(self)@.fields),
            accepts_dependency(final(self)@.fields),
    {
        proof {
            use_type_invariant(&*self);
        }
        let ghost before = entry_views(self.fields@);
        let ghost listed = dependencies(before);
        proof {
            lemma_with_field_distinct(
                before,
                "depends_on"@,
                FieldView::List(listed.push(FieldView::Raw(address@))),
            );
        }
        let mut fields: Vec<(String, TfField)> = Vec::new();
        std::mem::swap(&mut self.fields, &mut fields);
        match find_key(&fields, "depends_on") {
            Some(i) => {
                let (name, value) = fields.remove(i);
                if let TfField::List(mut list) = value {
                    let ghost old_list = list@;
                    list.push(TfField::Raw(address));
                    assert(field_views(list@) =~= field_views(old_list).push(
                        FieldView::Raw(address@),
                    ));
                    fields.insert(i, (name, TfField::List(list)));
                } else {
                    fields.insert(i, (name, value));
                }
                assert(entry_views(fields@) =~= with_dependency(before, address@));
            },
            None => {
                let mut list: Vec<TfField> = Vec::new();
                list.push(TfField::Raw(address));
                assert(field_views(list@) =~= Seq::<FieldView>::empty().push(
                    FieldView::Raw(address@),
                ));
                fields.push(("depends_on".to_owned(), TfField::List(list)));
                assert(entry_views(fields@) =~= with_dependency(before, address@));
            },
        }
        proof {
            let after = entry_views(fields@);
            let k = key_index(before, "depends_on"@);
            if has_key(before, "depends_on"@) {
                lemma_has_key(after, "depends_on"@, k);
                assert(first_at(after, "depends_on"@, k));
            } else {
                lemma_has_key(after, "depends_on"@, before.len() as int);
                assert(first_at(after, "depends_on"@, before.len() as int));
            }
        }
        self.fields = fields;
    }

    /// Renders the block.
    pub fn create_terraform(&self) -> (tf: Terraform)
        ensures
            tf@ == render_block(self@),
    {
        let mut s = self.tf_type.clone();
        s.append(" \"");
        s.append(self.resource_name.as_str());
        s.append("\" \"");
        s.append(self.resource_identifier.as_str());
        s.append("\" ");
        s.append(write_entries(&self.fields).as_str());
        s.append("\n");
        Terraform(s)
    }
}

} // verus!
