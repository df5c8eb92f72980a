//! Table metadata, registry configuration and parsed query options.

use vstd::prelude::*;

verus! {

/// Column metadata read from `information_schema`.
#[derive(Debug, Clone)]
pub struct ColumnMeta {
    pub name: String,
    pub data_type: String,
    pub is_nullable: bool,
    pub has_default: bool,
}

/// The value of a [`ColumnMeta`].
pub struct ColumnMetaView {
    pub name: Seq<char>,
    pub data_type: Seq<char>,
    pub is_nullable: bool,
    pub has_default: bool,
}

impl View for ColumnMeta {
    type V = ColumnMetaView;

    open spec fn view(&self) -> ColumnMetaView {
        ColumnMetaView {
            name: self.name@,
            data_type: self.data_type@,
            is_nullable: self.is_nullable,
            has_default: self.has_default,
        }
    }
}

/// Table metadata: schema, name, primary key columns (possibly composite) and columns.
#[derive(Debug, Clone)]
pub struct TableMeta {
    pub schema: String,
    pub name: String,
    pub primary_key: Vec<String>,
    pub columns: Vec<ColumnMeta>,
}

/// The value of a [`TableMeta`].
pub struct TableMetaView {
    pub schema: Seq<char>,
    pub name: Seq<char>,
    pub primary_key: Seq<Seq<char>>,
    pub columns: Seq<ColumnMetaView>,
}

impl View for TableMeta {
    type V = TableMetaView;

    open spec fn view(&self) -> TableMetaView {
        TableMetaView {
            schema: self.schema@,
            name: self.name@,
            primary_key: self.primary_key@.map_values(|s: String| s@),
            columns: self.columns@.map_values(|c: ColumnMeta| c@),
        }
    }
}

/// Per-table configuration stored in the registry.
#[derive(Debug, Clone)]
pub struct OxydTableConfig {
    pub table_name: String,
    pub is_exposed: bool,
    pub require_auth: bool,
    pub allow_insert: bool,
    pub allow_update: bool,
    pub allow_delete: bool,
    pub description: Option<String>,
}

/// The value of an [`OxydTableConfig`].
pub struct OxydTableConfigView {
    pub table_name: Seq<char>,
    pub is_exposed: bool,
    pub require_auth: bool,
    pub allow_insert: bool,
    pub allow_update: bool,
    pub allow_delete: bool,
    pub description: Option<Seq<char>>,
}

impl View for OxydTableConfig {
    type V = OxydTableConfigView;

    open spec fn view(&self) -> OxydTableConfigView {
        OxydTableConfigView {
            table_name: self.table_name@,
            is_exposed: self.is_exposed,
            require_auth: self.require_auth,
            allow_insert: self.allow_insert,
            allow_update: self.allow_update,
            allow_delete: self.allow_delete,
            description: match self.description {
                Some(d) => Some(d@),
                None => None,
            },
        }
    }
}

/// Filter operators (a PostgREST-like subset).
#[derive(Clone, Copy, Debug, PartialEq, Eq, Structural)]
pub enum FilterOp {
    Eq,
    Neq,
    Gt,
    Gte,
    Lt,
    Lte,
    Like,
    ILike,
    /// `IS NULL` / `IS NOT NULL`, chosen by the value `null` / `not.null`.
    Is,
}

/// One filter: column, operator and raw value.
#[derive(Debug, Clone)]
pub struct Filter {
    pub column: String,
    pub op: FilterOp,
    pub value: Option<String>,
}

/// The value of a [`Filter`].
pub struct FilterView {
    pub column: Seq<char>,
    pub op: FilterOp,
    pub value: Option<Seq<char>>,
}

/// The value of an optional string.
pub open spec fn opt_view(o: Option<String>) -> Option<Seq<char>> {
    match o {
        Some(s) => Some(s@),
        None => None,
    }
}

impl View for Filter {
    type V = FilterView;

    open spec fn view(&self) -> FilterView {
        FilterView { column: self.column@, op: self.op, value: opt_view(self.value) }
    }
}

/// Options parsed from a query string.
#[derive(Debug, Clone)]
pub struct QueryOptions {
    /// `select=col1,col2`
    pub select: Option<Vec<String>>,
    /// `id=eq.42`, `name=like.*abc*`, ...
    pub filters: Vec<Filter>,
    /// `order=col.asc|col.desc`: the column and whether the order is descending.
    pub order_by: Option<(String, bool)>,
    /// `limit=...`
    pub limit: Option<i64>,
    /// `offset=...`
    pub offset: Option<i64>,
}

/// The value of a [`QueryOptions`].
pub struct QueryOptionsView {
    pub select: Option<Seq<Seq<char>>>,
    pub filters: Seq<FilterView>,
    pub order_by: Option<(Seq<char>, bool)>,
    pub limit: Option<i64>,
    pub offset: Option<i64>,
}

/// The values of a sequence of strings.
pub open spec fn strings_view(v: Seq<String>) -> Seq<Seq<char>> {
    v.map_values(|s: String| s@)
}

impl View for QueryOptions {
    type V = QueryOptionsView;

    open spec fn view(&self) -> QueryOptionsView {
        QueryOptionsView {
            select: match self.select {
                Some(v) => Some(strings_view(v@)),
                None => None,
            },
            filters: self.filters@.map_values(|f: Filter| f@),
            order_by: match self.order_by {
                Some((c, d)) => Some((c@, d)),
                None => None,
            },
            limit: self.limit,
            offset: self.offset,
        }
    }
}

impl Default for QueryOptions {
    fn default() -> (r: Self)
        ensures
            r@.select is None,
            r@.filters.len() == 0,
            r@.order_by is None,
            r@.limit is None,
            r@.offset is None,
    {
        QueryOptions { select: None, filters: Vec::new(), order_by: None, limit: None, offset: None }
    }
}


/// Query-string parameters: `(key, value)` pairs in the order they are walked.
/// [`QueryParams::insert`] replaces the value of a key already present, so keys stay
/// distinct as in the map the parameters come from.
#[derive(Debug)]
pub struct QueryParams {
    pairs: Vec<(String, String)>,
}

/// Whether no key occurs twice.
pub open spec fn distinct_keys(q: Seq<(Seq<char>, Seq<char>)>) -> bool {
    forall|i: int, j: int| 0 <= i < j < q.len() ==> (#[trigger] q[i]).0 != (#[trigger] q[j]).0
}

/// The value of the first pair whose key is `k`.
pub open spec fn lookup(q: Seq<(Seq<char>, Seq<char>)>, k: Seq<char>) -> Option<Seq<char>>
    decreases q.len(),
{
    if q.len() == 0 {
        None
    } else if q[0].0 == k {
        Some(q[0].1)
    } else {
        lookup(q.drop_first(), k)
    }
}

/// The index of the first pair whose key is `k`.
pub open spec fn key_index(q: Seq<(Seq<char>, Seq<char>)>, k: Seq<char>) -> Option<nat>
    decreases q.len(),
{
    if q.len() == 0 {
        None
    } else if q[0].0 == k {
        Some(0)
    } else {
        match key_index(q.drop_first(), k) {
            Some(i) => Some(i + 1),
            None => None,
        }
    }
}

proof fn lemma_key_found(q: Seq<(Seq<char>, Seq<char>)>, k: Seq<char>, i: int)
    requires
        0 <= i < q.len(),
        q[i].0 == k,
        forall|j: int| 0 <= j < i ==> (#[trigger] q[j]).0 != k,
    ensures
        lookup(q, k) == Some(q[i].1),
        key_index(q, k) == Some(i as nat),
    decreases i,
{
    if i > 0 {
        let t = q.drop_first();
        assert forall|j: int| 0 <= j < i - 1 implies (#[trigger] t[j]).0 != k by {
            assert(t[j] == q[j + 1]);
        }
        lemma_key_found(t, k, i - 1);
    }
}

proof fn lemma_key_absent(q: Seq<(Seq<char>, Seq<char>)>, k: Seq<char>)
    requires
        forall|j: int| 0 <= j < q.len() ==> (#[trigger] q[j]).0 != k,
    ensures
        lookup(q, k) == None::<Seq<char>>,
        key_index(q, k) == None::<nat>,
    decreases q.len(),
{
    if q.len() > 0 {
        let t = q.drop_first();
        assert forall|j: int| 0 <= j < t.len() implies (#[trigger] t[j]).0 != k by {
            assert(t[j] == q[j + 1]);
        }
        lemma_key_absent(t, k);
    }
}

proof fn lemma_key_index_none(q: Seq<(Seq<char>, Seq<char>)>, k: Seq<char>)
    requires
        key_index(q, k) is None,
    ensures
        forall|j: int| 0 <= j < q.len() ==> (#[trigger] q[j]).0 != k,
    decreases q.len(),
{
    if q.len() > 0 {
        let t = q.drop_first();
        lemma_key_index_none(t, k);
        assert forall|j: int| 0 <= j < q.len() implies (#[trigger] q[j]).0 != k by {
            if j > 0 {
                assert(q[j] == t[j - 1]);
            }
        }
    }
}

proof fn lemma_key_index_bound(q: Seq<(Seq<char>, Seq<char>)>, k: Seq<char>)
    ensures
        key_index(q, k) matches Some(i) ==> i < q.len() && q[i as int].0 == k,
    decreases q.len(),
{
    if q.len() > 0 && q[0].0 != k {
        lemma_key_index_bound(q.drop_first(), k);
    }
}

/// The parameters after setting `k` to `v`: the value is replaced in place where
/// the key is present, else the pair is appended.
pub open spec fn with_param(q: Seq<(Seq<char>, Seq<char>)>, k: Seq<char>, v: Seq<char>) -> Seq<(Seq<char>, Seq<char>)> {
    match key_index(q, k) {
        Some(i) => q.update(i as int, (k, v)),
        None => q.push((k, v)),
    }
}

/// A parameter reads back as the value last set for it, and setting it leaves the
/// other parameters as they were.
pub proof fn lemma_param_read_back(q: Seq<(Seq<char>, Seq<char>)>, k: Seq<char>, v: Seq<char>, other: Seq<char>)
    ensures
        lookup(with_param(q, k, v), k) == Some(v),
        other != k ==> lookup(with_param(q, k, v), other) == lookup(q, other),
    decreases q.len(),
{
    let q2 = with_param(q, k, v);
    if q.len() == 0 {
        assert(q2[0] == (k, v));
        assert(q2.drop_first() =~= Seq::<(Seq<char>, Seq<char>)>::empty());
        assert(lookup(q2.drop_first(), other) is None);
    } else if q[0].0 == k {
        assert(key_index(q, k) == Some(0nat));
        assert(q2[0] == (k, v));
        assert(q2.drop_first() =~= q.drop_first());
    } else {
        let t = q.drop_first();
        lemma_param_read_back(t, k, v, other);
        lemma_key_index_bound(t, k);
        match key_index(t, k) {
            Some(i) => {
                assert(key_index(q, k) == Some((i + 1) as nat));
                assert(q2 == q.update(i + 1int, (k, v)));
                assert(q2.drop_first() =~= t.update(i as int, (k, v)));
            },
            None => {
                assert(q2 == q.push((k, v)));
                assert(q2.drop_first() =~= t.push((k, v)));
            },
        }
        assert(q2[0] == q[0]);
    }
}

impl View for QueryParams {
    type V = Seq<(Seq<char>, Seq<char>)>;

    closed spec fn view(&self) -> Seq<(Seq<char>, Seq<char>)> {
        self.pairs@.map_values(|p: (String, String)| (p.0@, p.1@))
    }
}

impl QueryParams {
    /// No parameters.
    pub fn new() -> (r: Self)
        ensures
            r@ == Seq::<(Seq<char>, Seq<char>)>::empty(),
    {
        let r = QueryParams { pairs: Vec::new() };
        assert(r@ =~= Seq::<(Seq<char>, Seq<char>)>::empty());
        r
    }

    /// The number of parameters.
    pub fn len(&self) -> (r: usize)
        ensures
            r == self@.len(),
    {
        self.pairs.len()
    }

    /// The key and value at position `i`.
    pub fn pair_at(&self, i: usize) -> (r: (&String, &String))
        requires
            i < self@.len(),
        ensures
            (r.0@, r.1@) == self@[i as int],
    {
        let p = &self.pairs[i];
        (&p.0, &p.1)
    }

    fn index_of(&self, k: &str) -> (r: Option<usize>)
        ensures
            match (r, key_index(self@, k@)) {
                (Some(i), Some(j)) => i == j && i < self@.len() && self@[i as int].0 == k@,
                (None, None) => true,
                _ => false,
            },
            r is None ==> lookup(self@, k@) is None,
            r matches Some(i) ==> lookup(self@, k@) == Some(self@[i as int].1),
    {
        let mut i: usize = 0;
        while i < self.pairs.len()
            invariant
                i <= self.pairs.len(),
                forall|j: int| 0 <= j < i ==> (#[trigger] self@[j]).0 != k@,
            decreases self.pairs.len() - i,
        {
            if crate::text::str_eq(self.pairs[i].0.as_str(), k) {
                proof {
                    lemma_key_found(self@, k@, i as int);
                }
                return Some(i);
            }
            i = i + 1;
        }
        proof {
            lemma_key_absent(self@, k@);
        }
        None
    }

    /// The value of key `k` (`HashMap::get`).
    pub fn get(&self, k: &str) -> (r: Option<&String>)
        ensures
            match r {
                Some(v) => lookup(self@, k@) == Some(v@),
                None => lookup(self@, k@) is None,
            },
    {
        match self.index_of(k) {
            Some(i) => Some(&self.pairs[i].1),
            None => None,
        }
    }

    /// Sets the value of key `k` (`HashMap::insert`): replaces the value in place
    /// where the key is present, else appends the pair.
    pub fn insert(&mut self, k: String, v: String)
        ensures
            final(self)@ == with_param(old(self)@, k@, v@),
            distinct_keys(old(self)@) ==> distinct_keys(final(self)@),
    {
        let ghost old_view = self@;
        match self.index_of(k.as_str()) {
            Some(i) => {
                self.pairs.set(i, (k, v));
                assert(self@ =~= old_view.update(i as int, (k@, v@)));
                assert(distinct_keys(old_view) ==> distinct_keys(self@));
            },
            None => {
                self.pairs.push((k, v));
                assert(self@ =~= old_view.push((k@, v@)));
                proof {
                    lemma_key_index_none(old_view, k@);
                }
                assert(distinct_keys(old_view) ==> distinct_keys(self@));
            },
        }
    }
}


/// One value of a JSON request body, as the SQL builders read it.
#[derive(Debug)]
pub enum JsonValue {
    /// `null`.
    Null,
    /// A JSON string, unescaped.
    Str(String),
    /// Any other value (number, boolean, array, object), as its JSON text.
    Json(String),
}

/// The value of a [`JsonValue`].
pub enum JsonValueView {
    Null,
    Str(Seq<char>),
    Json(Seq<char>),
}

impl View for JsonValue {
    type V = JsonValueView;

    open spec fn view(&self) -> JsonValueView {
        match self {
            JsonValue::Null => JsonValueView::Null,
            JsonValue::Str(s) => JsonValueView::Str(s@),
            JsonValue::Json(s) => JsonValueView::Json(s@),
        }
    }
}

/// The text that a non-null value is bound as: a string's content, else the JSON text.
pub open spec fn bind_text(v: JsonValueView) -> Seq<char> {
    match v {
        JsonValueView::Null => Seq::empty(),
        JsonValueView::Str(s) => s,
        JsonValueView::Json(s) => s,
    }
}

/// A JSON object: its fields in the order the object is walked.
pub type JsonObject = Vec<(String, JsonValue)>;

/// The value of a JSON object.
pub open spec fn object_view(o: Seq<(String, JsonValue)>) -> Seq<(Seq<char>, JsonValueView)> {
    o.map_values(|f: (String, JsonValue)| (f.0@, f.1@))
}

/// A JSON request body, as the SQL builders read it.
#[derive(Debug)]
pub enum JsonBody {
    /// An object.
    Object(JsonObject),
    /// An array; `None` stands for an element that is not an object.
    Array(Vec<Option<JsonObject>>),
    /// Any other JSON value.
    Other,
}

/// The value of a [`JsonBody`].
pub enum JsonBodyView {
    Object(Seq<(Seq<char>, JsonValueView)>),
    Array(Seq<Option<Seq<(Seq<char>, JsonValueView)>>>),
    Other,
}

impl View for JsonBody {
    type V = JsonBodyView;

    open spec fn view(&self) -> JsonBodyView {
        match self {
            JsonBody::Object(o) => JsonBodyView::Object(object_view(o@)),
            JsonBody::Array(a) => JsonBodyView::Array(
                a@.map_values(|e: Option<JsonObject>| match e {
                    Some(o) => Some(object_view(o@)),
                    None => None,
                }),
            ),
            JsonBody::Other => JsonBodyView::Other,
        }
    }
}

/// The value of the first field named `k`.
pub open spec fn field(o: Seq<(Seq<char>, JsonValueView)>, k: Seq<char>) -> Option<JsonValueView>
    decreases o.len(),
{
    if o.len() == 0 {
        None
    } else if o[0].0 == k {
        Some(o[0].1)
    } else {
        field(o.drop_first(), k)
    }
}

} // verus!
