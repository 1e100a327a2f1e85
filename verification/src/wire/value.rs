//! Values and types as they cross the tool wire boundary, with their
//! mathematical views.
//!
//! A float is carried as its decimal text: the shortest round-trip
//! rendering of the number (`1`, `0.1`, `-2.5`), or `NaN`, `inf` or
//! `-inf` for the values the wire cannot represent.
use vstd::prelude::*;

verus! {

/// A type as wire decoding reads it. `Var(i)` in a constructor's field
/// types stands for the owning ADT's `i`-th type parameter.
#[derive(Debug, PartialEq)]
pub enum Ty {
    /// A type variable.
    Var(u32),
    /// A type constructor applied to arguments (`Int`, `List<a>`, an ADT).
    Con(String, Vec<Ty>),
    /// A function type: parameters, result, and the effects of its row.
    Fn(Vec<Ty>, Box<Ty>, Vec<Effect>),
    /// A tuple; the empty tuple is unit.
    Tuple(Vec<Ty>),
    /// A structural record, its labels strictly ascending.
    Record(Vec<(String, Ty)>),
    /// A quantified type: the bound variables and the body.
    Forall(Vec<u32>, Box<Ty>),
}

/// One effect of a row: its head name and type arguments (`Exn<E>`).
#[derive(Debug, PartialEq)]
pub struct Effect {
    /// The effect name.
    pub head: String,
    /// The effect's type arguments.
    pub args: Vec<Ty>,
}

/// The mathematical view of a [`Ty`].
pub enum TyV {
    /// A type variable.
    Var(u32),
    /// A constructor application.
    Con(Seq<char>, Seq<TyV>),
    /// A function type.
    Fn(Seq<TyV>, Box<TyV>, Seq<(Seq<char>, Seq<TyV>)>),
    /// A tuple.
    Tuple(Seq<TyV>),
    /// A record.
    Record(Seq<(Seq<char>, TyV)>),
    /// A quantified type.
    Forall(Seq<u32>, Box<TyV>),
}

/// The view of a type.
pub open spec fn ty_v(t: &Ty) -> TyV
    decreases t, 1nat,
{
    match t {
        Ty::Var(v) => TyV::Var(*v),
        Ty::Con(n, args) => TyV::Con(n@, tys_v(args@)),
        Ty::Fn(ps, r, effs) => TyV::Fn(tys_v(ps@), Box::new(ty_v(r)), effs_v(effs@)),
        Ty::Tuple(es) => TyV::Tuple(tys_v(es@)),
        Ty::Record(fs) => TyV::Record(fields_ty_v(fs@)),
        Ty::Forall(vs, b) => TyV::Forall(vs@, Box::new(ty_v(b))),
    }
}

/// The views of a sequence of types.
pub open spec fn tys_v(s: Seq<Ty>) -> Seq<TyV>
    decreases s, 0nat,
{
    if s.len() == 0 {
        Seq::empty()
    } else {
        tys_v(s.drop_last()).push(ty_v(&s.last()))
    }
}

/// The views of record-type fields.
pub open spec fn fields_ty_v(s: Seq<(String, Ty)>) -> Seq<(Seq<char>, TyV)>
    decreases s, 0nat,
{
    if s.len() == 0 {
        Seq::empty()
    } else {
        fields_ty_v(s.drop_last()).push((s.last().0@, ty_v(&s.last().1)))
    }
}

/// The views of a row's effects.
pub open spec fn effs_v(s: Seq<Effect>) -> Seq<(Seq<char>, Seq<TyV>)>
    decreases s, 0nat,
{
    if s.len() == 0 {
        Seq::empty()
    } else {
        effs_v(s.drop_last()).push((s.last().head@, tys_v(s.last().args@)))
    }
}

impl View for Ty {
    type V = TyV;

    open spec fn view(&self) -> TyV {
        ty_v(self)
    }
}

/// A Hirð value as it crosses the tool wire boundary.
///
/// Function types and capabilities have no variant: they are not
/// wire-representable.
#[derive(Debug, PartialEq)]
pub enum WireValue {
    /// The unit value, encoded as `null`.
    Unit,
    /// An integer, exact within `i64`.
    Int(i64),
    /// A float, as its decimal text.
    Float(String),
    /// A string.
    String(String),
    /// A list, encoded as a JSON array.
    List(Vec<WireValue>),
    /// A tuple, encoded as a JSON array of its fixed arity.
    Tuple(Vec<WireValue>),
    /// A structural record, its labels strictly ascending; encoded as an
    /// object.
    Record(Vec<(String, WireValue)>),
    /// An ADT value, encoded as `{"ctor":"Name","args":[…]}`.
    Ctor(String, Vec<WireValue>),
}

/// The mathematical view of a [`WireValue`].
pub enum Val {
    /// Unit.
    Unit,
    /// An integer.
    Int(i64),
    /// A float's decimal text.
    Float(Seq<char>),
    /// A string.
    Str(Seq<char>),
    /// A list.
    List(Seq<Val>),
    /// A tuple.
    Tuple(Seq<Val>),
    /// A record.
    Record(Seq<(Seq<char>, Val)>),
    /// A constructor application.
    Ctor(Seq<char>, Seq<Val>),
}

/// The view of a value.
pub open spec fn val_v(v: &WireValue) -> Val
    decreases v, 1nat,
{
    match v {
        WireValue::Unit => Val::Unit,
        WireValue::Int(i) => Val::Int(*i),
        WireValue::Float(t) => Val::Float(t@),
        WireValue::String(s) => Val::Str(s@),
        WireValue::List(items) => Val::List(vals_v(items@)),
        WireValue::Tuple(items) => Val::Tuple(vals_v(items@)),
        WireValue::Record(fs) => Val::Record(fields_v(fs@)),
        WireValue::Ctor(n, args) => Val::Ctor(n@, vals_v(args@)),
    }
}

/// The views of a sequence of values.
pub open spec fn vals_v(s: Seq<WireValue>) -> Seq<Val>
    decreases s, 0nat,
{
    if s.len() == 0 {
        Seq::empty()
    } else {
        vals_v(s.drop_last()).push(val_v(&s.last()))
    }
}

/// The views of record fields.
pub open spec fn fields_v(s: Seq<(String, WireValue)>) -> Seq<(Seq<char>, Val)>
    decreases s, 0nat,
{
    if s.len() == 0 {
        Seq::empty()
    } else {
        fields_v(s.drop_last()).push((s.last().0@, val_v(&s.last().1)))
    }
}

impl View for WireValue {
    type V = Val;

    open spec fn view(&self) -> Val {
        val_v(self)
    }
}

/// An entry of the observer-populated `meta` envelope field: plain JSON.
#[derive(Debug, PartialEq)]
pub enum MetaValue {
    /// JSON `null`.
    Null,
    /// A JSON boolean.
    Bool(bool),
    /// A JSON number with integer syntax.
    Int(i64),
    /// A JSON number with fractional or exponent syntax, as its text.
    Float(String),
    /// A JSON string.
    String(String),
    /// A JSON array.
    Array(Vec<MetaValue>),
    /// A JSON object, keys strictly ascending.
    Object(Vec<(String, MetaValue)>),
}

/// The mathematical view of a [`MetaValue`].
pub enum Meta {
    /// `null`.
    Null,
    /// A boolean.
    Bool(bool),
    /// An integer.
    Int(i64),
    /// A float's text.
    Float(Seq<char>),
    /// A string.
    Str(Seq<char>),
    /// An array.
    Array(Seq<Meta>),
    /// An object.
    Object(Seq<(Seq<char>, Meta)>),
}

/// The view of a meta value.
pub open spec fn meta_v(v: &MetaValue) -> Meta
    decreases v, 1nat,
{
    match v {
        MetaValue::Null => Meta::Null,
        MetaValue::Bool(b) => Meta::Bool(*b),
        MetaValue::Int(i) => Meta::Int(*i),
        MetaValue::Float(t) => Meta::Float(t@),
        MetaValue::String(s) => Meta::Str(s@),
        MetaValue::Array(items) => Meta::Array(metas_v(items@)),
        MetaValue::Object(fs) => Meta::Object(meta_fields_v(fs@)),
    }
}

/// The views of a sequence of meta values.
pub open spec fn metas_v(s: Seq<MetaValue>) -> Seq<Meta>
    decreases s, 0nat,
{
    if s.len() == 0 {
        Seq::empty()
    } else {
        metas_v(s.drop_last()).push(meta_v(&s.last()))
    }
}

/// The views of meta object entries.
pub open spec fn meta_fields_v(s: Seq<(String, MetaValue)>) -> Seq<(Seq<char>, Meta)>
    decreases s, 0nat,
{
    if s.len() == 0 {
        Seq::empty()
    } else {
        meta_fields_v(s.drop_last()).push((s.last().0@, meta_v(&s.last().1)))
    }
}

impl View for MetaValue {
    type V = Meta;

    open spec fn view(&self) -> Meta {
        meta_v(self)
    }
}

/// A tool invocation's outcome.
#[derive(Debug, PartialEq)]
pub enum ToolResult {
    /// The tool returned a value, encoded as `{"ok":…}`.
    Success(WireValue),
    /// The tool failed with an error value, encoded as `{"err":…}`.
    Failure(WireValue),
}

/// The view of a tool result.
pub enum ResultV {
    /// Success.
    Success(Val),
    /// Failure.
    Failure(Val),
}

impl View for ToolResult {
    type V = ResultV;

    open spec fn view(&self) -> ResultV {
        match self {
            ToolResult::Success(v) => ResultV::Success(v@),
            ToolResult::Failure(v) => ResultV::Failure(v@),
        }
    }
}

/// One tool invocation as recorded in the audit log.
#[derive(Debug, PartialEq)]
pub struct InvocationRecord {
    /// The tool's declared name (e.g. `ReadRepo`).
    pub tool: String,
    /// The structured arguments the tool was invoked with.
    pub args: WireValue,
    /// The tagged outcome.
    pub result: ToolResult,
    /// RFC 3339 UTC instant with millisecond precision.
    pub timestamp: String,
    /// The invoking function, as `"Module.function"`.
    pub caller: String,
    /// Observer-populated transport metadata; omitted from the wire when
    /// `None`.
    pub meta: Option<Vec<(String, MetaValue)>>,
}

/// The view of an invocation record.
pub struct RecordV {
    /// The tool name.
    pub tool: Seq<char>,
    /// The arguments.
    pub args: Val,
    /// The outcome.
    pub result: ResultV,
    /// The timestamp.
    pub timestamp: Seq<char>,
    /// The caller.
    pub caller: Seq<char>,
    /// The metadata, if any.
    pub meta: Option<Seq<(Seq<char>, Meta)>>,
}

impl View for InvocationRecord {
    type V = RecordV;

    open spec fn view(&self) -> RecordV {
        RecordV {
            tool: self.tool@,
            args: self.args@,
            result: self.result@,
            timestamp: self.timestamp@,
            caller: self.caller@,
            meta: match &self.meta {
                Some(m) => Some(meta_fields_v(m@)),
                None => None,
            },
        }
    }
}

// ── element-wise facts ──────────────────────────────────────────

/// The views of a sequence of values are taken element-wise.
pub proof fn lemma_vals_v(s: Seq<WireValue>)
    ensures
        vals_v(s).len() == s.len(),
        forall|i: int| 0 <= i < s.len() ==> #[trigger] vals_v(s)[i] == s[i]@,
    decreases s.len(),
{
    if s.len() > 0 {
        lemma_vals_v(s.drop_last());
        assert forall|i: int| 0 <= i < s.len() implies #[trigger] vals_v(s)[i] == s[i]@ by {
            if i < s.len() - 1 {
                assert(s.drop_last()[i] == s[i]);
            }
        }
    }
}

/// The views of record fields are taken element-wise.
pub proof fn lemma_fields_v(s: Seq<(String, WireValue)>)
    ensures
        fields_v(s).len() == s.len(),
        forall|i: int| 0 <= i < s.len() ==> #[trigger] fields_v(s)[i] == (s[i].0@, s[i].1@),
    decreases s.len(),
{
    if s.len() > 0 {
        lemma_fields_v(s.drop_last());
        assert forall|i: int| 0 <= i < s.len() implies #[trigger] fields_v(s)[i] == (
            s[i].0@,
            s[i].1@,
        ) by {
            if i < s.len() - 1 {
                assert(s.drop_last()[i] == s[i]);
            }
        }
    }
}

/// The views of a sequence of types are taken element-wise.
pub proof fn lemma_tys_v(s: Seq<Ty>)
    ensures
        tys_v(s).len() == s.len(),
        forall|i: int| 0 <= i < s.len() ==> #[trigger] tys_v(s)[i] == s[i]@,
    decreases s.len(),
{
    if s.len() > 0 {
        lemma_tys_v(s.drop_last());
        assert forall|i: int| 0 <= i < s.len() implies #[trigger] tys_v(s)[i] == s[i]@ by {
            if i < s.len() - 1 {
                assert(s.drop_last()[i] == s[i]);
            }
        }
    }
}

/// The views of record-type fields are taken element-wise.
pub proof fn lemma_fields_ty_v(s: Seq<(String, Ty)>)
    ensures
        fields_ty_v(s).len() == s.len(),
        forall|i: int| 0 <= i < s.len() ==> #[trigger] fields_ty_v(s)[i] == (s[i].0@, s[i].1@),
    decreases s.len(),
{
    if s.len() > 0 {
        lemma_fields_ty_v(s.drop_last());
        assert forall|i: int| 0 <= i < s.len() implies #[trigger] fields_ty_v(s)[i] == (
            s[i].0@,
            s[i].1@,
        ) by {
            if i < s.len() - 1 {
                assert(s.drop_last()[i] == s[i]);
            }
        }
    }
}

/// The views of a row's effects are taken element-wise.
pub proof fn lemma_effs_v(s: Seq<Effect>)
    ensures
        effs_v(s).len() == s.len(),
        forall|i: int| 0 <= i < s.len() ==> #[trigger] effs_v(s)[i] == (s[i].head@, tys_v(s[i].args@)),
    decreases s.len(),
{
    if s.len() > 0 {
        lemma_effs_v(s.drop_last());
        assert forall|i: int| 0 <= i < s.len() implies #[trigger] effs_v(s)[i] == (
            s[i].head@,
            tys_v(s[i].args@),
        ) by {
            if i < s.len() - 1 {
                assert(s.drop_last()[i] == s[i]);
            }
        }
    }
}

/// The views of meta values are taken element-wise.
pub proof fn lemma_metas_v(s: Seq<MetaValue>)
    ensures
        metas_v(s).len() == s.len(),
        forall|i: int| 0 <= i < s.len() ==> #[trigger] metas_v(s)[i] == s[i]@,
    decreases s.len(),
{
    if s.len() > 0 {
        lemma_metas_v(s.drop_last());
        assert forall|i: int| 0 <= i < s.len() implies #[trigger] metas_v(s)[i] == s[i]@ by {
            if i < s.len() - 1 {
                assert(s.drop_last()[i] == s[i]);
            }
        }
    }
}

/// The views of meta object entries are taken element-wise.
pub proof fn lemma_meta_fields_v(s: Seq<(String, MetaValue)>)
    ensures
        meta_fields_v(s).len() == s.len(),
        forall|i: int| 0 <= i < s.len() ==> #[trigger] meta_fields_v(s)[i] == (s[i].0@, s[i].1@),
    decreases s.len(),
{
    if s.len() > 0 {
        lemma_meta_fields_v(s.drop_last());
        assert forall|i: int| 0 <= i < s.len() implies #[trigger] meta_fields_v(s)[i] == (
            s[i].0@,
            s[i].1@,
        ) by {
            if i < s.len() - 1 {
                assert(s.drop_last()[i] == s[i]);
            }
        }
    }
}

} // verus!
