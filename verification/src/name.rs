//! Dotted identifier paths: a single identifier, a schema-and-leaf pair,
//! or a longer namespaced path, rendered with literal dot separators.

use vstd::prelude::*;
use crate::error::IdentError;
use crate::ident::{IdentV, PgIdent, ident_spec};

verus! {

/// The mathematical shape of a name: one identifier, exactly two, or an
/// ordered path of three or more.
pub enum NameV {
    Single(IdentV),
    Pair(IdentV, IdentV),
    Path(Seq<IdentV>),
}

/// The rendering of a path: each component's rendering joined with
/// literal dots, in stored order.
pub open spec fn join_rendered(ids: Seq<IdentV>) -> Seq<char>
    decreases ids.len(),
{
    if ids.len() == 0 {
        Seq::empty()
    } else if ids.len() == 1 {
        ids[0].rendered()
    } else {
        join_rendered(ids.drop_last()) + seq!['.'] + ids.last().rendered()
    }
}

impl NameV {
    /// A path shape always carries three or more components; the shorter
    /// counts are the dedicated shapes.
    pub open spec fn wf(self) -> bool {
        match self {
            NameV::Single(_) => true,
            NameV::Pair(_, _) => true,
            NameV::Path(ids) => ids.len() >= 3,
        }
    }

    /// The rightmost identifier: the one a leaf replacement addresses.
    pub open spec fn leaf(self) -> IdentV {
        match self {
            NameV::Single(i) => i,
            NameV::Pair(_, t) => t,
            NameV::Path(ids) => ids.last(),
        }
    }

    /// Every component but the leaf, in order.
    pub open spec fn prefix(self) -> Seq<IdentV> {
        match self {
            NameV::Single(_) => Seq::empty(),
            NameV::Pair(s, _) => seq![s],
            NameV::Path(ids) => ids.drop_last(),
        }
    }

    /// The same name with the leaf replaced and everything else kept.
    pub open spec fn with_leaf(self, v: IdentV) -> NameV {
        match self {
            NameV::Single(_) => NameV::Single(v),
            NameV::Pair(s, _) => NameV::Pair(s, v),
            NameV::Path(ids) => NameV::Path(ids.drop_last().push(v)),
        }
    }

    /// The canonical text: components joined with literal dots, no
    /// leading or trailing dot.
    pub open spec fn rendered(self) -> Seq<char> {
        match self {
            NameV::Single(i) => i.rendered(),
            NameV::Pair(s, t) => s.rendered() + seq!['.'] + t.rendered(),
            NameV::Path(ids) => join_rendered(ids),
        }
    }
}

/// Whether the two names have the same shape.
pub open spec fn same_shape(a: NameV, b: NameV) -> bool {
    &&& (a is Single <==> b is Single)
    &&& (a is Pair <==> b is Pair)
    &&& (a is Path <==> b is Path)
}

/// What validating each raw string in order yields: the identifiers in
/// order, or the first error encountered.
pub open spec fn idents_spec(raws: Seq<Seq<char>>) -> Result<Seq<IdentV>, IdentError>
    decreases raws.len(),
{
    if raws.len() == 0 {
        Ok(Seq::empty())
    } else {
        match ident_spec(raws[0]) {
            Err(e) => Err(e),
            Ok(v) => match idents_spec(raws.drop_first()) {
                Err(e) => Err(e),
                Ok(rest) => Ok(seq![v] + rest),
            },
        }
    }
}

/// What building a name from one raw string yields.
pub open spec fn name_single_spec(raw: Seq<char>) -> Result<NameV, IdentError> {
    match ident_spec(raw) {
        Ok(v) => Ok(NameV::Single(v)),
        Err(e) => Err(e),
    }
}

/// What building a name from two raw strings yields: the first becomes
/// the schema, the second the leaf, failing on the first invalid one.
pub open spec fn name_pair_spec(a: Seq<char>, b: Seq<char>) -> Result<NameV, IdentError> {
    match ident_spec(a) {
        Err(e) => Err(e),
        Ok(va) => match ident_spec(b) {
            Err(e) => Err(e),
            Ok(vb) => Ok(NameV::Pair(va, vb)),
        },
    }
}

/// What building a name from an ordered list of raw strings yields: an
/// empty list is rejected outright; otherwise each element is validated
/// in order, and the count picks the shape.
pub open spec fn name_ns_spec(raws: Seq<Seq<char>>) -> Result<NameV, IdentError> {
    if raws.len() == 0 {
        Err(IdentError::ZeroLengthError())
    } else {
        match idents_spec(raws) {
            Err(e) => Err(e),
            Ok(ids) => Ok(
                if ids.len() == 1 {
                    NameV::Single(ids[0])
                } else if ids.len() == 2 {
                    NameV::Pair(ids[0], ids[1])
                } else {
                    NameV::Path(ids)
                },
            ),
        }
    }
}

/// When every element validates, the result lists the identifiers in
/// order.
proof fn lemma_idents_spec_ok(raws: Seq<Seq<char>>)
    requires
        forall|j: int| 0 <= j < raws.len() ==> ident_spec(#[trigger] raws[j]) is Ok,
    ensures
        idents_spec(raws) is Ok,
        idents_spec(raws)->Ok_0 == Seq::new(raws.len(), |j: int| ident_spec(raws[j])->Ok_0),
    decreases raws.len(),
{
    if raws.len() == 0 {
        assert(idents_spec(raws)->Ok_0 =~= Seq::new(0, |j: int| ident_spec(raws[j])->Ok_0));
    } else {
        let rest = raws.drop_first();
        assert(forall|j: int| 0 <= j < rest.len() ==> ident_spec(#[trigger] rest[j]) is Ok);
        lemma_idents_spec_ok(rest);
        assert(idents_spec(raws)->Ok_0 =~= Seq::new(
            raws.len(),
            |j: int| ident_spec(raws[j])->Ok_0,
        ));
    }
}

/// When the elements before some index validate and that index does not,
/// the result is that index's error.
proof fn lemma_idents_spec_err(raws: Seq<Seq<char>>, i: int)
    requires
        0 <= i < raws.len(),
        forall|j: int| 0 <= j < i ==> ident_spec(#[trigger] raws[j]) is Ok,
        ident_spec(raws[i]) is Err,
    ensures
        idents_spec(raws) == Err::<Seq<IdentV>, IdentError>(ident_spec(raws[i])->Err_0),
    decreases raws.len(),
{
    if i == 0 {
    } else {
        let rest = raws.drop_first();
        assert(forall|j: int| 0 <= j < i - 1 ==> ident_spec(#[trigger] rest[j]) is Ok);
        assert(rest[i - 1] == raws[i]);
        lemma_idents_spec_err(rest, i - 1);
    }
}

/// A validated dotted name of one or more identifiers.
///
/// `Id` is one identifier, `IdPair` a schema and a leaf, `Namespaced` an
/// ordered path of three or more.
#[derive(Debug)]
pub enum PgName {
    Id(PgIdent),
    IdPair(PgIdent, PgIdent),
    Namespaced(Vec<PgIdent>),
}

impl View for PgName {
    type V = NameV;

    open spec fn view(&self) -> NameV {
        match self {
            PgName::Id(i) => NameV::Single(i@),
            PgName::IdPair(s, t) => NameV::Pair(s@, t@),
            PgName::Namespaced(ids) => NameV::Path(ids@.map_values(|p: PgIdent| p@)),
        }
    }
}

impl PgName {
    /// The shape invariant: a namespaced path holds at least three
    /// components.
    pub open spec fn wf(self) -> bool {
        self@.wf()
    }

    /// Build a single-identifier name from one raw string. Fails exactly
    /// when the identifier itself cannot be built.
    pub fn new(id: &str) -> (r: Result<PgName, IdentError>)
        ensures
            match name_single_spec(id@) {
                Ok(v) => r is Ok && r->Ok_0@ == v && r->Ok_0.wf(),
                Err(e) => r is Err && r->Err_0 == e,
            },
    {
        match PgIdent::new(id) {
            Ok(i) => Ok(PgName::Id(i)),
            Err(e) => Err(e),
        }
    }

    /// Build a schema-and-leaf pair from two raw strings, validating the
    /// schema first and failing on the first invalid one.
    pub fn new_pair(schema: &str, table: &str) -> (r: Result<PgName, IdentError>)
        ensures
            match name_pair_spec(schema@, table@) {
                Ok(v) => r is Ok && r->Ok_0@ == v && r->Ok_0.wf(),
                Err(e) => r is Err && r->Err_0 == e,
            },
    {
        let s = match PgIdent::new(schema) {
            Ok(i) => i,
            Err(e) => {
                return Err(e);
            },
        };
        let t = match PgIdent::new(table) {
            Ok(i) => i,
            Err(e) => {
                return Err(e);
            },
        };
        Ok(PgName::IdPair(s, t))
    }

    /// Build a name from an ordered list of raw strings: reject an empty
    /// list, validate every element in order stopping at the first
    /// failure, and pick the shape by the count — one gives a single
    /// name, two a pair, three or more a namespaced path.
    pub fn new_ns(ns: Vec<String>) -> (r: Result<PgName, IdentError>)
        ensures
            match name_ns_spec(ns@.map_values(|s: String| s@)) {
                Ok(v) => r is Ok && r->Ok_0@ == v && r->Ok_0.wf(),
                Err(e) => r is Err && r->Err_0 == e,
            },
    {
        let ghost raws = ns@.map_values(|s: String| s@);
        let n = ns.len();
        if n == 0 {
            return Err(IdentError::ZeroLengthError());
        }
        let mut ids: Vec<PgIdent> = Vec::new();
        let mut i: usize = 0;
        while i < n
            invariant
                i <= n,
                n == ns@.len(),
                raws == ns@.map_values(|s: String| s@),
                ids@.len() == i,
                forall|j: int| 0 <= j < i ==> ident_spec(#[trigger] raws[j]) is Ok,
                forall|j: int| 0 <= j < i ==> #[trigger] ids@[j]@ == ident_spec(raws[j])->Ok_0,
            decreases n - i,
        {
            match PgIdent::new(ns[i].as_str()) {
                Ok(id) => ids.push(id),
                Err(e) => {
                    proof {
                        lemma_idents_spec_err(raws, i as int);
                    }
                    return Err(e);
                },
            }
            i = i + 1;
        }
        proof {
            lemma_idents_spec_ok(raws);
            assert(ids@.map_values(|p: PgIdent| p@) =~= idents_spec(raws)->Ok_0);
        }
        let ghost idsv = ids@.map_values(|p: PgIdent| p@);
        if ids.len() == 1 {
            let only = ids.pop().unwrap();
            proof {
                assert(only@ == idsv[0]);
            }
            return Ok(PgName::Id(only));
        }
        if ids.len() == 2 {
            let second = ids.pop().unwrap();
            let first = ids.pop().unwrap();
            proof {
                assert(first@ == idsv[0]);
                assert(second@ == idsv[1]);
            }
            return Ok(PgName::IdPair(first, second));
        }
        Ok(PgName::Namespaced(ids))
    }

    /// The leaf: the rightmost identifier of the name.
    pub fn name(&self) -> (r: &PgIdent)
        requires
            self.wf(),
        ensures
            r@ == self@.leaf(),
    {
        match self {
            PgName::Id(i) => i,
            PgName::IdPair(_, t) => t,
            PgName::Namespaced(ids) => {
                let idx = ids.len() - 1;
                &ids[idx]
            },
        }
    }

    /// A new name of the same shape with every component but the leaf
    /// kept unchanged and a freshly validated leaf in its place. Fails
    /// exactly when the new leaf cannot be built.
    pub fn with_name(&self, name_part: &str) -> (r: Result<PgName, IdentError>)
        requires
            self.wf(),
        ensures
            match ident_spec(name_part@) {
                Ok(v) => r is Ok && r->Ok_0@ == self@.with_leaf(v) && r->Ok_0.wf(),
                Err(e) => r is Err && r->Err_0 == e,
            },
    {
        let np = match PgIdent::new(name_part) {
            Ok(i) => i,
            Err(e) => {
                return Err(e);
            },
        };
        match self {
            PgName::Id(_) => Ok(PgName::Id(np)),
            PgName::IdPair(schema, _) => Ok(PgName::IdPair(schema.clone(), np)),
            PgName::Namespaced(ids) => {
                let ghost idsv = ids@.map_values(|p: PgIdent| p@);
                let k = ids.len() - 1;
                let mut new_parts: Vec<PgIdent> = Vec::new();
                let mut i: usize = 0;
                while i < k
                    invariant
                        i <= k,
                        k == ids@.len() - 1,
                        ids@.len() >= 1,
                        idsv == ids@.map_values(|p: PgIdent| p@),
                        new_parts@.len() == i,
                        forall|j: int| 0 <= j < i ==> #[trigger] new_parts@[j]@ == idsv[j],
                    decreases k - i,
                {
                    let part = ids[i].clone();
                    new_parts.push(part);
                    i = i + 1;
                }
                new_parts.push(np);
                proof {
                    assert(new_parts@.map_values(|p: PgIdent| p@) =~= idsv.drop_last().push(
                        np@,
                    ));
                }
                Ok(PgName::Namespaced(new_parts))
            },
        }
    }

    /// The canonical text of the name: the components' renderings joined
    /// with literal dots, in stored order.
    pub fn render(&self) -> (r: String)
        ensures
            r@ == self@.rendered(),
    {
        proof {
            reveal_strlit(".");
        }
        match self {
            PgName::Id(i) => i.render(),
            PgName::IdPair(s, t) => {
                let mut out = s.render();
                out.append(".");
                let tr = t.render();
                out.append(tr.as_str());
                proof {
                    assert((".")@ =~= seq!['.']);
                    assert(out@ =~= self@.rendered());
                }
                out
            },
            PgName::Namespaced(ids) => {
                let ghost idsv = ids@.map_values(|p: PgIdent| p@);
                let mut out = String::new();
                let n = ids.len();
                let mut i: usize = 0;
                proof {
                    assert((".")@ =~= seq!['.']);
                }
                while i < n
                    invariant
                        i <= n,
                        n == ids@.len(),
                        idsv == ids@.map_values(|p: PgIdent| p@),
                        (".")@ == seq!['.'],
                        out@ == join_rendered(idsv.take(i as int)),
                    decreases n - i,
                {
                    if i > 0 {
                        out.append(".");
                    }
                    let piece = ids[i].render();
                    out.append(piece.as_str());
                    proof {
                        assert(idsv.take(i + 1).drop_last() =~= idsv.take(i as int));
                        assert(idsv.take(i + 1).last() == idsv[i as int]);
                        assert(out@ =~= join_rendered(idsv.take(i + 1)));
                    }
                    i = i + 1;
                }
                proof {
                    assert(idsv.take(n as int) =~= idsv);
                }
                out
            },
        }
    }
}

/// Law: building a name from an empty list fails with the zero-length
/// error, before any identifier validation.
pub proof fn lemma_empty_ns_rejected(raws: Seq<Seq<char>>)
    requires
        raws.len() == 0,
    ensures
        name_ns_spec(raws) == Err::<NameV, IdentError>(IdentError::ZeroLengthError()),
{
}

/// Law: a list of exactly one raw string builds the same name, or fails
/// with the same error, as building a single name from that string.
pub proof fn lemma_ns_one_is_single(raws: Seq<Seq<char>>)
    requires
        raws.len() == 1,
    ensures
        name_ns_spec(raws) == name_single_spec(raws[0]),
{
    let rest = raws.drop_first();
    assert(rest.len() == 0);
    assert(idents_spec(rest) == Ok::<Seq<IdentV>, IdentError>(Seq::empty()));
    match ident_spec(raws[0]) {
        Ok(v) => {
            assert(idents_spec(raws) == Ok::<Seq<IdentV>, IdentError>(seq![v] + Seq::empty()));
            assert((seq![v] + Seq::<IdentV>::empty()) =~= seq![v]);
        },
        Err(e) => {},
    }
}

/// Law: a list of exactly two raw strings builds the same name, or fails
/// with the same error, as building a pair from the two strings in
/// order.
pub proof fn lemma_ns_two_is_pair(raws: Seq<Seq<char>>)
    requires
        raws.len() == 2,
    ensures
        name_ns_spec(raws) == name_pair_spec(raws[0], raws[1]),
{
    let rest = raws.drop_first();
    assert(rest.len() == 1);
    assert(rest[0] == raws[1]);
    let rest2 = rest.drop_first();
    assert(rest2.len() == 0);
    assert(idents_spec(rest2) == Ok::<Seq<IdentV>, IdentError>(Seq::empty()));
    match ident_spec(raws[0]) {
        Ok(va) => {
            match ident_spec(raws[1]) {
                Ok(vb) => {
                    assert(idents_spec(rest) == Ok::<Seq<IdentV>, IdentError>(
                        seq![vb] + Seq::empty(),
                    ));
                    let ids = idents_spec(raws)->Ok_0;
                    assert(ids =~= seq![va] + (seq![vb] + Seq::<IdentV>::empty()));
                    assert(ids.len() == 2);
                    assert(ids[0] == va);
                    assert(ids[1] == vb);
                },
                Err(e) => {},
            }
        },
        Err(e) => {},
    }
}

/// Law: replacing the leaf preserves the shape and every non-leaf
/// component, and only the leaf reflects the new identifier.
pub proof fn lemma_with_leaf_preserves(n: NameV, v: IdentV)
    requires
        n.wf(),
    ensures
        n.with_leaf(v).wf(),
        n.with_leaf(v).leaf() == v,
        n.with_leaf(v).prefix() == n.prefix(),
        same_shape(n, n.with_leaf(v)),
{
    match n {
        NameV::Single(_) => {},
        NameV::Pair(_, _) => {},
        NameV::Path(ids) => {
            assert(ids.drop_last().push(v).drop_last() =~= ids.drop_last());
        },
    }
}

} // verus!
