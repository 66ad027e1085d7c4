use vstd::prelude::*;

use crate::text::same_text;

verus! {

broadcast use {vstd::seq::group_seq_axioms, vstd::std_specs::vec::group_vec_axioms};

/// The primitive types, and unions of them. A union is the set of its members: `==` ignores
/// their order and repeats.
#[derive(Debug)]
pub enum UVType {
    Int,
    Float,
    String,
    Boolean,
    Null,
    Union(Vec<UVType>),
}

/// The mathematical value of a type.
pub enum TypeView {
    Int,
    Float,
    String,
    Boolean,
    Null,
    Union(Seq<TypeView>),
}

pub open spec fn type_view(t: UVType) -> TypeView
    decreases t,
{
    match t {
        UVType::Int => TypeView::Int,
        UVType::Float => TypeView::Float,
        UVType::String => TypeView::String,
        UVType::Boolean => TypeView::Boolean,
        UVType::Null => TypeView::Null,
        UVType::Union(ts) => TypeView::Union(types_view(ts@)),
    }
}

pub open spec fn types_view(ts: Seq<UVType>) -> Seq<TypeView>
    decreases ts,
{
    if ts.len() == 0 {
        seq![]
    } else {
        types_view(ts.drop_last()).push(type_view(ts.last()))
    }
}

pub proof fn lemma_types_view_index(ts: Seq<UVType>)
    ensures
        types_view(ts).len() == ts.len(),
        forall|i: int| 0 <= i < ts.len() ==> #[trigger] types_view(ts)[i] == type_view(ts[i]),
    decreases ts.len(),
{
    if ts.len() > 0 {
        lemma_types_view_index(ts.drop_last());
    }
}

/// Whether a value of type `o` is always a value of type `t`: equal types accept each other, a
/// type accepts a union when it accepts each member, and a union accepts a type that one of its
/// members accepts.
pub open spec fn accepts(t: TypeView, o: TypeView) -> bool
    decreases o, t,
{
    if t == o {
        true
    } else if o is Union {
        forall|i: int| 0 <= i < o->Union_0.len() ==> accepts(t, #[trigger] o->Union_0[i])
    } else if t is Union {
        exists|i: int| 0 <= i < t->Union_0.len() && accepts(#[trigger] t->Union_0[i], o)
    } else {
        false
    }
}

/// Whether two types are the same, a union being the set of its members: each member of one
/// union is the same as some member of the other.
pub open spec fn same_type(a: TypeView, b: TypeView) -> bool
    decreases a, 3int, 0int,
{
    if a is Union && b is Union {
        all_members_found(a, b, 0) && all_members_cover(a, b, 0)
    } else if a is Union || b is Union {
        false
    } else {
        a == b
    }
}

/// Whether members `i..` of the union `a` each are the same as some member of the union `b`.
pub open spec fn all_members_found(a: TypeView, b: TypeView, i: int) -> bool
    decreases a, 2int, a->Union_0.len() - i,
{
    if a is Union && 0 <= i < a->Union_0.len() {
        member_found_from(a, i, b->Union_0, 0) && all_members_found(a, b, i + 1)
    } else {
        true
    }
}

/// Whether member `i` of the union `a` is the same as one of `ys[j..]`.
pub open spec fn member_found_from(a: TypeView, i: int, ys: Seq<TypeView>, j: int) -> bool
    decreases a, 1int, ys.len() - j,
{
    if a is Union && 0 <= i < a->Union_0.len() && 0 <= j < ys.len() {
        same_type(a->Union_0[i], ys[j]) || member_found_from(a, i, ys, j + 1)
    } else {
        false
    }
}

/// Whether members `j..` of the union `b` each are the same as some member of the union `a`.
pub open spec fn all_members_cover(a: TypeView, b: TypeView, j: int) -> bool
    decreases a, 2int, b->Union_0.len() - j,
{
    if b is Union && 0 <= j < b->Union_0.len() {
        found_among(a, b->Union_0[j], 0) && all_members_cover(a, b, j + 1)
    } else {
        true
    }
}

/// Whether `y` is the same as one of the members `i..` of the union `a`.
pub open spec fn found_among(a: TypeView, y: TypeView, i: int) -> bool
    decreases a, 1int, a->Union_0.len() - i,
{
    if a is Union && 0 <= i < a->Union_0.len() {
        same_type(a->Union_0[i], y) || found_among(a, y, i + 1)
    } else {
        false
    }
}

/// The members of a union type.
pub open spec fn members(t: UVType) -> Seq<TypeView> {
    type_view(t)->Union_0
}

/// Whether member `i` of the union `a` is the same as some member of `ys`.
fn member_found(a: &UVType, i: usize, ys: &Vec<UVType>) -> (r: bool)
    requires
        *a is Union,
        i < members(*a).len(),
    ensures
        r == member_found_from(type_view(*a), i as int, types_view(ys@), 0),
    decreases a, 1int,
{
    let xs = match a {
        UVType::Union(xs) => xs,
        _ => vstd::pervasive::unreached(),
    };
    proof {
        lemma_types_view_index(xs@);
        lemma_types_view_index(ys@);
    }
    let mut j: usize = 0;
    while j < ys.len()
        invariant
            *a == UVType::Union(*xs),
            type_view(*a) == TypeView::Union(types_view(xs@)),
            types_view(xs@).len() == xs.len(),
            types_view(ys@).len() == ys.len(),
            forall|k: int| 0 <= k < xs.len() ==> #[trigger] types_view(xs@)[k] == type_view(xs@[k]),
            forall|k: int| 0 <= k < ys.len() ==> #[trigger] types_view(ys@)[k] == type_view(ys@[k]),
            i < xs.len(),
            j <= ys.len(),
            member_found_from(type_view(*a), i as int, types_view(ys@), 0) == member_found_from(
                type_view(*a),
                i as int,
                types_view(ys@),
                j as int,
            ),
        decreases ys.len() - j,
    {
        proof {
            assert(decreases_to!(*a => *xs));
            assert(decreases_to!(*xs => xs[i as int]));
            assert(types_view(xs@)[i as int] == type_view(xs@[i as int]));
            assert(types_view(ys@)[j as int] == type_view(ys@[j as int]));
        }
        if same_types(&xs[i], &ys[j]) {
            return true;
        }
        j = j + 1;
    }
    false
}

/// Whether `y` is the same as some member of the union `a`.
fn found_in(a: &UVType, y: &UVType) -> (r: bool)
    requires
        *a is Union,
    ensures
        r == found_among(type_view(*a), type_view(*y), 0),
    decreases a, 1int,
{
    let xs = match a {
        UVType::Union(xs) => xs,
        _ => vstd::pervasive::unreached(),
    };
    proof {
        lemma_types_view_index(xs@);
    }
    let mut i: usize = 0;
    while i < xs.len()
        invariant
            *a == UVType::Union(*xs),
            type_view(*a) == TypeView::Union(types_view(xs@)),
            types_view(xs@).len() == xs.len(),
            forall|k: int| 0 <= k < xs.len() ==> #[trigger] types_view(xs@)[k] == type_view(xs@[k]),
            i <= xs.len(),
            found_among(type_view(*a), type_view(*y), 0) == found_among(type_view(*a), type_view(*y), i as int),
        decreases xs.len() - i,
    {
        proof {
            assert(decreases_to!(*a => *xs));
            assert(decreases_to!(*xs => xs[i as int]));
            assert(types_view(xs@)[i as int] == type_view(xs@[i as int]));
        }
        if same_types(&xs[i], y) {
            return true;
        }
        i = i + 1;
    }
    false
}

/// Whether two types are the same, as `same_type` states.
fn same_types(a: &UVType, b: &UVType) -> (r: bool)
    ensures
        r == same_type(type_view(*a), type_view(*b)),
    decreases a, 2int,
{
    match (a, b) {
        (UVType::Union(xs), UVType::Union(ys)) => {
            proof {
                lemma_types_view_index(xs@);
                lemma_types_view_index(ys@);
            }
            let ghost av = type_view(*a);
            let ghost bv = type_view(*b);
            let mut i: usize = 0;
            while i < xs.len()
                invariant
                    *a == UVType::Union(*xs),
                    *b == UVType::Union(*ys),
                    av == type_view(*a),
                    bv == type_view(*b),
                    av == TypeView::Union(types_view(xs@)),
                    bv == TypeView::Union(types_view(ys@)),
                    types_view(xs@).len() == xs.len(),
                    i <= xs.len(),
                    all_members_found(av, bv, 0) == all_members_found(av, bv, i as int),
                decreases xs.len() - i,
            {
                if !member_found(a, i, ys) {
                    return false;
                }
                i = i + 1;
            }
            let mut j: usize = 0;
            proof {
                lemma_types_view_index(ys@);
            }
            while j < ys.len()
                invariant
                    *a == UVType::Union(*xs),
                    *b == UVType::Union(*ys),
                    av == type_view(*a),
                    bv == type_view(*b),
                    av == TypeView::Union(types_view(xs@)),
                    bv == TypeView::Union(types_view(ys@)),
                    types_view(ys@).len() == ys.len(),
                    forall|k: int| 0 <= k < ys.len() ==> #[trigger] types_view(ys@)[k] == type_view(ys@[k]),
                    all_members_found(av, bv, 0),
                    j <= ys.len(),
                    all_members_cover(av, bv, 0) == all_members_cover(av, bv, j as int),
                decreases ys.len() - j,
            {
                assert(types_view(ys@)[j as int] == type_view(ys@[j as int]));
                if !found_in(a, &ys[j]) {
                    return false;
                }
                j = j + 1;
            }
            true
        },
        (UVType::Union(_), _) => false,
        (_, UVType::Union(_)) => false,
        (UVType::Int, UVType::Int) => true,
        (UVType::Float, UVType::Float) => true,
        (UVType::String, UVType::String) => true,
        (UVType::Boolean, UVType::Boolean) => true,
        (UVType::Null, UVType::Null) => true,
        _ => false,
    }
}

impl PartialEq for UVType {
    fn eq(&self, other: &UVType) -> (r: bool) {
        same_types(self, other)
    }
}

impl vstd::std_specs::cmp::PartialEqSpecImpl for UVType {
    open spec fn obeys_eq_spec() -> bool {
        true
    }

    open spec fn eq_spec(&self, other: &UVType) -> bool {
        same_type(type_view(*self), type_view(*other))
    }
}

/// Whether two types are equal member for member.
fn types_equal(a: &UVType, b: &UVType) -> (r: bool)
    ensures
        r == (type_view(*a) == type_view(*b)),
    decreases a,
{
    match (a, b) {
        (UVType::Int, UVType::Int) => true,
        (UVType::Float, UVType::Float) => true,
        (UVType::String, UVType::String) => true,
        (UVType::Boolean, UVType::Boolean) => true,
        (UVType::Null, UVType::Null) => true,
        (UVType::Union(xs), UVType::Union(ys)) => {
            proof {
                lemma_types_view_index(xs@);
                lemma_types_view_index(ys@);
            }
            if xs.len() != ys.len() {
                return false;
            }
            let mut i: usize = 0;
            while i < xs.len()
                invariant
                    xs.len() == ys.len(),
                    *a == UVType::Union(*xs),
                    *b == UVType::Union(*ys),
                    i <= xs.len(),
                    types_view(xs@).len() == xs.len(),
                    types_view(ys@).len() == ys.len(),
                    forall|k: int| 0 <= k < xs.len() ==> #[trigger] types_view(xs@)[k] == type_view(xs@[k]),
                    forall|k: int| 0 <= k < ys.len() ==> #[trigger] types_view(ys@)[k] == type_view(ys@[k]),
                    forall|k: int| 0 <= k < i ==> type_view(#[trigger] xs@[k]) == type_view(ys@[k]),
                decreases xs.len() - i,
            {
                proof {
                    assert(decreases_to!(*a => *xs));
                    assert(decreases_to!(*xs => xs[i as int]));
                }
                if !types_equal(&xs[i], &ys[i]) {
                    assert(types_view(xs@)[i as int] != types_view(ys@)[i as int]);
                    return false;
                }
                i = i + 1;
            }
            assert(types_view(xs@) =~= types_view(ys@));
            true
        },
        _ => false,
    }
}

/// Whether every value of type `o` is a value of type `t`.
fn assignable(t: &UVType, o: &UVType) -> (r: bool)
    ensures
        r == accepts(type_view(*t), type_view(*o)),
    decreases o, t,
{
    if types_equal(t, o) {
        return true;
    }
    if let UVType::Union(os) = o {
        proof {
            lemma_types_view_index(os@);
        }
        let mut i: usize = 0;
        while i < os.len()
            invariant
                i <= os.len(),
                *o == UVType::Union(*os),
                type_view(*t) != type_view(*o),
                type_view(*o) == TypeView::Union(types_view(os@)),
                types_view(os@).len() == os.len(),
                forall|k: int| 0 <= k < os.len() ==> #[trigger] types_view(os@)[k] == type_view(os@[k]),
                forall|k: int| 0 <= k < i ==> accepts(type_view(*t), #[trigger] types_view(os@)[k]),
            decreases os.len() - i,
        {
            proof {
                assert(decreases_to!(*o => *os));
                assert(decreases_to!(*os => os[i as int]));
            }
            if !assignable(t, &os[i]) {
                proof {
                    assert(types_view(os@)[i as int] == type_view(os@[i as int]));
                    lemma_accepts_union_source(type_view(*t), types_view(os@));
                }
                return false;
            }
            i = i + 1;
        }
        proof {
            lemma_accepts_union_source(type_view(*t), types_view(os@));
        }
        return true;
    }
    if let UVType::Union(ts) = t {
        proof {
            lemma_types_view_index(ts@);
        }
        let mut i: usize = 0;
        while i < ts.len()
            invariant
                i <= ts.len(),
                *t == UVType::Union(*ts),
                type_view(*t) != type_view(*o),
                !(type_view(*o) is Union),
                type_view(*t) == TypeView::Union(types_view(ts@)),
                types_view(ts@).len() == ts.len(),
                forall|k: int| 0 <= k < ts.len() ==> #[trigger] types_view(ts@)[k] == type_view(ts@[k]),
                forall|k: int| 0 <= k < i ==> !accepts(#[trigger] types_view(ts@)[k], type_view(*o)),
            decreases ts.len() - i,
        {
            proof {
                assert(decreases_to!(*t => *ts));
                assert(decreases_to!(*ts => ts[i as int]));
            }
            if assignable(&ts[i], o) {
                proof {
                    assert(types_view(ts@)[i as int] == type_view(ts@[i as int]));
                    assert(type_view(*t)->Union_0 == types_view(ts@));
                    assert(accepts(type_view(*t)->Union_0[i as int], type_view(*o)));
                }
                return true;
            }
            i = i + 1;
        }
        proof {
            assert(type_view(*t)->Union_0 == types_view(ts@));
        }
        return false;
    }
    false
}

/// The assignability relation between types.
pub trait IsAssignable {
    spec fn assignable_spec(&self, other: &UVType) -> bool;

    /// Whether every value of type `other` is a value of this type.
    fn is_assignable_from(&self, other: &UVType) -> (r: bool)
        ensures
            r == self.assignable_spec(other),
    ;
}

impl IsAssignable for UVType {
    open spec fn assignable_spec(&self, other: &UVType) -> bool {
        accepts(type_view(*self), type_view(*other))
    }

    fn is_assignable_from(&self, other: &UVType) -> (r: bool) {
        assignable(self, other)
    }
}

/// Every type accepts itself.
pub proof fn lemma_assignable_reflexive(t: TypeView)
    ensures
        accepts(t, t),
{
}

/// A union accepts a type that is no union exactly when one of its members accepts it.
pub proof fn lemma_union_accepts_member_type(ts: Seq<TypeView>, x: TypeView)
    requires
        !(x is Union),
    ensures
        accepts(TypeView::Union(ts), x) <==> exists|i: int| 0 <= i < ts.len() && accepts(ts[i], x),
{
    let u = TypeView::Union(ts);
    assert(u->Union_0 == ts);
    if accepts(u, x) {
        let i = choose|i: int| 0 <= i < u->Union_0.len() && accepts(#[trigger] u->Union_0[i], x);
        assert(accepts(ts[i], x));
    }
    if exists|i: int| 0 <= i < ts.len() && accepts(ts[i], x) {
        let i = choose|i: int| 0 <= i < ts.len() && accepts(ts[i], x);
        assert(accepts(u->Union_0[i], x));
    }
}

/// A type other than the union itself accepts the union exactly when it accepts each member.
proof fn lemma_accepts_union_source(t: TypeView, os: Seq<TypeView>)
    requires
        t != TypeView::Union(os),
    ensures
        accepts(t, TypeView::Union(os)) <==> forall|k: int| 0 <= k < os.len() ==> accepts(t, #[trigger] os[k]),
{
    let o = TypeView::Union(os);
    assert(o->Union_0 == os);
    if accepts(t, o) {
        assert forall|k: int| 0 <= k < os.len() implies accepts(t, #[trigger] os[k]) by {
            assert(o->Union_0[k] == os[k]);
        }
    }
}

/// A union accepts whatever one of its members accepts.
proof fn lemma_union_widens(ts: Seq<TypeView>, m: TypeView, i: int)
    requires
        0 <= i < ts.len(),
        accepts(ts[i], m),
    ensures
        accepts(TypeView::Union(ts), m),
    decreases m,
{
    if TypeView::Union(ts) == m {
    } else if let TypeView::Union(ms) = m {
        assert forall|k: int| 0 <= k < ms.len() implies accepts(TypeView::Union(ts), #[trigger] ms[k]) by {
            assert(decreases_to!(m => ms));
            assert(decreases_to!(ms => ms[k]));
            if ts[i] == m {
                assert(accepts(ms[k], ms[k]));
                lemma_union_widens(ms, ms[k], k);
            }
            assert(accepts(ts[i], ms[k]));
            lemma_union_widens(ts, ms[k], i);
        }
        lemma_accepts_union_source(TypeView::Union(ts), ms);
    } else {
        let u = TypeView::Union(ts);
        assert(u->Union_0 == ts);
        assert(u->Union_0[i] == ts[i]);
        assert(accepts(u, m));
    }
}

/// A type accepts a union exactly when it accepts each member of the union.
pub proof fn lemma_accepts_union(x: TypeView, ts: Seq<TypeView>)
    ensures
        accepts(x, TypeView::Union(ts)) <==> forall|i: int| 0 <= i < ts.len() ==> accepts(x, ts[i]),
{
    if x == TypeView::Union(ts) {
        assert forall|i: int| 0 <= i < ts.len() implies accepts(x, ts[i]) by {
            lemma_union_widens(ts, ts[i], i);
        }
        assert(accepts(x, TypeView::Union(ts)));
    } else {
        lemma_accepts_union_source(x, ts);
    }
}

/// A value: an integer, a float (as the literal that denotes it), a string, a boolean or null.
#[derive(Debug, PartialEq)]
pub enum UVValue {
    Int(i64),
    Float(String),
    String(String),
    Boolean(bool),
    Null,
}

/// The mathematical value of a value.
pub enum ValueView {
    Int(int),
    Float(Seq<char>),
    String(Seq<char>),
    Boolean(bool),
    Null,
}

impl View for UVValue {
    type V = ValueView;

    open spec fn view(&self) -> ValueView {
        match self {
            UVValue::Int(i) => ValueView::Int(*i as int),
            UVValue::Float(s) => ValueView::Float(s@),
            UVValue::String(s) => ValueView::String(s@),
            UVValue::Boolean(b) => ValueView::Boolean(*b),
            UVValue::Null => ValueView::Null,
        }
    }
}

/// Gives the type of a node or value.
pub trait GetType {
    spec fn type_spec(&self) -> TypeView;

    /// The type of the value.
    fn get_type(&self) -> (r: UVType)
        ensures
            type_view(r) == self.type_spec(),
    ;
}

impl GetType for UVValue {
    open spec fn type_spec(&self) -> TypeView {
        match self {
            UVValue::Int(_) => TypeView::Int,
            UVValue::Float(_) => TypeView::Float,
            UVValue::String(_) => TypeView::String,
            UVValue::Boolean(_) => TypeView::Boolean,
            UVValue::Null => TypeView::Null,
        }
    }

    fn get_type(&self) -> (r: UVType) {
        match self {
            UVValue::Int(_) => UVType::Int,
            UVValue::Float(_) => UVType::Float,
            UVValue::String(_) => UVType::String,
            UVValue::Boolean(_) => UVType::Boolean,
            UVValue::Null => UVType::Null,
        }
    }
}

/// Gives the type of a symbol as seen from a scope.
pub trait GetTypeScope {
    /// The type of the symbol in `scope`.
    fn get_type_from_scope(&self, scope: Option<usize>) -> UVType;
}

/// The type that a keyword names: `int`, `float`, `str`, `bool` or `null`.
pub open spec fn keyword_type(s: Seq<char>) -> Option<TypeView> {
    if s == "int"@ {
        Some(TypeView::Int)
    } else if s == "float"@ {
        Some(TypeView::Float)
    } else if s == "str"@ {
        Some(TypeView::String)
    } else if s == "bool"@ {
        Some(TypeView::Boolean)
    } else if s == "null"@ {
        Some(TypeView::Null)
    } else {
        None
    }
}

pub open spec fn option_type_view(t: Option<UVType>) -> Option<TypeView> {
    match t {
        Some(x) => Some(type_view(x)),
        None => None,
    }
}

/// Reads a type from its keyword.
pub trait StringToType {
    spec fn to_uvtype_spec(&self) -> Option<TypeView>;

    /// The type the text names, if it is a type keyword.
    fn to_uvtype(&self) -> (r: Option<UVType>)
        ensures
            option_type_view(r) == self.to_uvtype_spec(),
    ;
}

impl StringToType for String {
    open spec fn to_uvtype_spec(&self) -> Option<TypeView> {
        keyword_type(self@)
    }

    fn to_uvtype(&self) -> (r: Option<UVType>) {
        let s = self.as_str();
        if same_text(s, "int") {
            Some(UVType::Int)
        } else if same_text(s, "float") {
            Some(UVType::Float)
        } else if same_text(s, "str") {
            Some(UVType::String)
        } else if same_text(s, "bool") {
            Some(UVType::Boolean)
        } else if same_text(s, "null") {
            Some(UVType::Null)
        } else {
            None
        }
    }
}

} // verus!
