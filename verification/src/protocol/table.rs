//! The table of the types a protocol knows, by name.
use vstd::prelude::*;
use vstd::string::*;

use crate::protocol::definitions::{Definition, Definitions};
use crate::protocol::error::{Error, ErrorView};
use crate::protocol::primitive::PrimitiveType;
use crate::protocol::text::str_eq;
use crate::protocol::types::{ResolvedType, ResolvedTypeView};

verus! {

/// The entries of a table: names and their types, in the order in which
/// they were added.
pub type TableView = Seq<(Seq<char>, ResolvedTypeView)>;

/// Whether the table has an entry named `name`.
pub open spec fn table_has(t: TableView, name: Seq<char>) -> bool {
    exists|i: int| 0 <= i < t.len() && #[trigger] t[i].0 == name
}

/// The type of the entry named `name`, if there is one.
pub open spec fn table_get(t: TableView, name: Seq<char>) -> Option<ResolvedTypeView> {
    if table_has(t, name) {
        Some(t[choose|i: int| 0 <= i < t.len() && #[trigger] t[i].0 == name].1)
    } else {
        None
    }
}

/// No two entries of the table have one name.
pub open spec fn distinct_names(t: TableView) -> bool {
    forall|i: int, j: int| 0 <= i < j < t.len() ==> #[trigger] t[i].0 != #[trigger] t[j].0
}

/// The primitive type of the entry named `name`, if it has one.
pub open spec fn table_primitive(t: TableView, name: Seq<char>) -> Option<PrimitiveType> {
    match table_get(t, name) {
        Some(ResolvedTypeView::Primitive(p)) => Some(p),
        _ => None,
    }
}

/// Whether a type is one that the protocol's definitions introduce.
pub open spec fn is_defined_type(t: ResolvedTypeView) -> bool {
    t is Enum || t is Wrapper || t is Message
}

/// The types every protocol knows before its definitions are resolved.
pub open spec fn builtin_table() -> TableView {
    seq![
        ("u8"@, ResolvedTypeView::Primitive(PrimitiveType::U8)),
        ("u16"@, ResolvedTypeView::Primitive(PrimitiveType::U16)),
        ("u32"@, ResolvedTypeView::Primitive(PrimitiveType::U32)),
        ("u64"@, ResolvedTypeView::Primitive(PrimitiveType::U64)),
        ("u128"@, ResolvedTypeView::Primitive(PrimitiveType::U128)),
        ("i8"@, ResolvedTypeView::Primitive(PrimitiveType::I8)),
        ("i16"@, ResolvedTypeView::Primitive(PrimitiveType::I16)),
        ("i32"@, ResolvedTypeView::Primitive(PrimitiveType::I32)),
        ("i64"@, ResolvedTypeView::Primitive(PrimitiveType::I64)),
        ("i128"@, ResolvedTypeView::Primitive(PrimitiveType::I128)),
        ("f32"@, ResolvedTypeView::F32),
        ("f64"@, ResolvedTypeView::F64),
        ("char"@, ResolvedTypeView::Char),
        ("bool"@, ResolvedTypeView::Bool),
        ("String"@, ResolvedTypeView::String),
        ("[remainder]"@, ResolvedTypeView::Remainder),
    ]
}

/// A named type of a table.
#[derive(Debug)]
pub struct TableEntry {
    pub name: String,
    pub ty: ResolvedType,
}

/// The types a protocol knows, each under its own name.
#[derive(Debug)]
pub struct TypeTable {
    entries: Vec<TableEntry>,
}

impl View for TypeTable {
    type V = TableView;

    closed spec fn view(&self) -> TableView {
        self.entries@.map_values(|e: TableEntry| (e.name@, e.ty@))
    }
}

proof fn lemma_builtin_names_distinct()
    ensures
        distinct_names(builtin_table()),
{
    reveal_strlit("u8");
    reveal_strlit("u16");
    reveal_strlit("u32");
    reveal_strlit("u64");
    reveal_strlit("u128");
    reveal_strlit("i8");
    reveal_strlit("i16");
    reveal_strlit("i32");
    reveal_strlit("i64");
    reveal_strlit("i128");
    reveal_strlit("f32");
    reveal_strlit("f64");
    reveal_strlit("char");
    reveal_strlit("bool");
    reveal_strlit("String");
    reveal_strlit("[remainder]");
    let t = builtin_table();
    assert forall|i: int, j: int| 0 <= i < j < t.len() implies #[trigger] t[i].0 != #[trigger] t[j].0 by {
        let a = t[i].0;
        let b = t[j].0;
        assert(a.len() >= 2 && b.len() >= 2);
        if a == b {
            assert(a[0] == b[0] && a[1] == b[1]);
        }
    }
}

impl Default for TypeTable {
    /// The table of the built-in types.
    fn default() -> (r: TypeTable)
        ensures
            r@ == builtin_table(),
    {
        TypeTable::new()
    }
}

impl TypeTable {
    /// The table of the types every protocol knows: the primitive integers,
    /// `f32`, `f64`, `char`, `bool`, `String` and `[remainder]`.
    pub fn new() -> (r: TypeTable)
        ensures
            r@ == builtin_table(),
    {
        let mut entries: Vec<TableEntry> = Vec::new();
        entries.push(TableEntry { name: String::from_str("u8"), ty: ResolvedType::Primitive(PrimitiveType::U8) });
        entries.push(TableEntry { name: String::from_str("u16"), ty: ResolvedType::Primitive(PrimitiveType::U16) });
        entries.push(TableEntry { name: String::from_str("u32"), ty: ResolvedType::Primitive(PrimitiveType::U32) });
        entries.push(TableEntry { name: String::from_str("u64"), ty: ResolvedType::Primitive(PrimitiveType::U64) });
        entries.push(TableEntry { name: String::from_str("u128"), ty: ResolvedType::Primitive(PrimitiveType::U128) });
        entries.push(TableEntry { name: String::from_str("i8"), ty: ResolvedType::Primitive(PrimitiveType::I8) });
        entries.push(TableEntry { name: String::from_str("i16"), ty: ResolvedType::Primitive(PrimitiveType::I16) });
        entries.push(TableEntry { name: String::from_str("i32"), ty: ResolvedType::Primitive(PrimitiveType::I32) });
        entries.push(TableEntry { name: String::from_str("i64"), ty: ResolvedType::Primitive(PrimitiveType::I64) });
        entries.push(TableEntry { name: String::from_str("i128"), ty: ResolvedType::Primitive(PrimitiveType::I128) });
        entries.push(TableEntry { name: String::from_str("f32"), ty: ResolvedType::F32 });
        entries.push(TableEntry { name: String::from_str("f64"), ty: ResolvedType::F64 });
        entries.push(TableEntry { name: String::from_str("char"), ty: ResolvedType::Char });
        entries.push(TableEntry { name: String::from_str("bool"), ty: ResolvedType::Bool });
        entries.push(TableEntry { name: String::from_str("String"), ty: ResolvedType::String });
        entries.push(TableEntry { name: String::from_str("[remainder]"), ty: ResolvedType::Remainder });
        let r = TypeTable { entries };
        assert(r@ =~= builtin_table());
        r
    }

    /// No two entries have one name.
    pub open spec fn wf(&self) -> bool {
        distinct_names(self@)
    }

    /// The index of the entry named `name`.
    fn position(&self, name: &str) -> (r: Option<usize>)
        requires
            self.wf(),
        ensures
            match r {
                Some(i) => i < self@.len() && self@[i as int].0 == name@ && table_has(self@, name@)
                    && table_get(self@, name@) == Some(self@[i as int].1),
                None => !table_has(self@, name@),
            },
    {
        let mut i: usize = 0;
        while i < self.entries.len()
            invariant
                i <= self.entries@.len(),
                self@.len() == self.entries@.len(),
                forall|k: int| 0 <= k < i ==> self@[k].0 != name@,
                distinct_names(self@),
            decreases self.entries@.len() - i,
        {
            if str_eq(self.entries[i].name.as_str(), name) {
                proof {
                    let t = self@;
                    assert(t[i as int].0 == name@);
                    let j = choose|j: int| 0 <= j < t.len() && #[trigger] t[j].0 == name@;
                    assert(j == i as int);
                }
                return Some(i);
            }
            i = i + 1;
        }
        None
    }

    /// Whether a type named `name` is known.
    pub fn contains(&self, name: &str) -> (r: bool)
        requires
            self.wf(),
        ensures
            r == table_has(self@, name@),
    {
        self.position(name).is_some()
    }

    /// The primitive type named `ty`; `None` where `ty` names no type or one
    /// that is not primitive.
    pub fn get_primitive(&self, ty: &str) -> (r: Option<PrimitiveType>)
        requires
            self.wf(),
        ensures
            r == table_primitive(self@, ty@),
    {
        match self.position(ty) {
            Some(i) => match &self.entries[i].ty {
                ResolvedType::Primitive(p) => Some(*p),
                _ => None,
            },
            None => None,
        }
    }

    /// The type named `ty`, if it is known.
    pub fn get_type(&self, ty: &str) -> (r: Option<&ResolvedType>)
        requires
            self.wf(),
        ensures
            match r {
                Some(t) => table_get(self@, ty@) == Some(t@),
                None => table_get(self@, ty@) is None,
            },
    {
        match self.position(ty) {
            Some(i) => Some(&self.entries[i].ty),
            None => None,
        }
    }

    /// Adds a type under a name that is not taken.
    pub fn insert(&mut self, name: String, ty: ResolvedType)
        requires
            old(self).wf(),
            !table_has(old(self)@, name@),
        ensures
            final(self)@ == old(self)@.push((name@, ty@)),
            final(self).wf(),
    {
        self.entries.push(TableEntry { name, ty });
        assert(self@ =~= old(self)@.push((name@, ty@)));
    }

    /// Keeps only the types that definitions introduced (enums, wrappers and
    /// messages), in their order.
    pub fn filter(&mut self)
        requires
            old(self).wf(),
        ensures
            final(self)@ == old(self)@.filter(|e: (Seq<char>, ResolvedTypeView)| is_defined_type(e.1)),
            final(self).wf(),
    {
        let ghost keep = |e: (Seq<char>, ResolvedTypeView)| is_defined_type(e.1);
        let ghost all = self@;
        let mut rest: Vec<TableEntry> = Vec::new();
        core::mem::swap(&mut rest, &mut self.entries);
        let mut kept: Vec<TableEntry> = Vec::new();
        let ghost mut i: int = 0;
        assert(rest@.map_values(|e: TableEntry| (e.name@, e.ty@)) =~= all.skip(0));
        assert(all.take(0) =~= Seq::<(Seq<char>, ResolvedTypeView)>::empty());
        proof {
            reveal(Seq::filter);
        }
        while rest.len() > 0
            invariant
                0 <= i <= all.len(),
                distinct_names(all),
                rest@.map_values(|e: TableEntry| (e.name@, e.ty@)) == all.skip(i),
                kept@.map_values(|e: TableEntry| (e.name@, e.ty@)) == all.take(i).filter(keep),
                distinct_names(kept@.map_values(|e: TableEntry| (e.name@, e.ty@))),
                forall|k: int|
                    0 <= k < kept@.len() ==> exists|j: int|
                        0 <= j < i && #[trigger] kept@[k].name@ == all[j].0,
                keep == (|e: (Seq<char>, ResolvedTypeView)| is_defined_type(e.1)),
            decreases rest@.len(),
        {
            let ghost before = kept@.map_values(|e: TableEntry| (e.name@, e.ty@));
            let ghost rest_view = rest@.map_values(|e: TableEntry| (e.name@, e.ty@));
            assert(rest_view.len() == rest@.len());
            assert(i < all.len());
            assert(rest_view[0] == (rest@[0].name@, rest@[0].ty@));
            let e = rest.remove(0);
            assert((e.name@, e.ty@) == all[i]);
            assert(all.take(i + 1).drop_last() =~= all.take(i));
            assert(all.take(i + 1).last() == all[i]);
            let is_defined = match &e.ty {
                ResolvedType::Enum(_) | ResolvedType::Wrapper(_) | ResolvedType::Message(_) => true,
                _ => false,
            };
            if is_defined {
                kept.push(e);
                proof {
                    let after = kept@.map_values(|e: TableEntry| (e.name@, e.ty@));
                    assert(after =~= before.push(all[i]));
                    assert forall|a: int, b: int| 0 <= a < b < after.len() implies #[trigger] after[a].0
                        != #[trigger] after[b].0 by {
                        if b == after.len() - 1 {
                            let j = choose|j: int| 0 <= j < i && #[trigger] kept@[a].name@ == all[j].0;
                            assert(all[j].0 != all[i].0);
                        } else {
                            assert(before[a].0 != before[b].0);
                        }
                    }
                }
            }
            proof {
                reveal(Seq::filter);
                assert(is_defined == is_defined_type(all[i].1));
                assert(all.take(i + 1).filter(keep) == (if keep(all[i]) {
                    all.take(i).filter(keep).push(all[i])
                } else {
                    all.take(i).filter(keep)
                }));
                assert(rest@.map_values(|e: TableEntry| (e.name@, e.ty@)) =~= rest_view.subrange(
                    1,
                    rest_view.len() as int,
                ));
                i = i + 1;
            }
            assert(rest@.map_values(|e: TableEntry| (e.name@, e.ty@)) =~= all.skip(i));
            assert(kept@.map_values(|e: TableEntry| (e.name@, e.ty@)) =~= all.take(i).filter(keep));
        }
        assert(all.take(i) =~= all);
        self.entries = kept;
    }

    /// The entries, in the order in which they were added.
    pub fn entries(&self) -> (r: &[TableEntry])
        ensures
            r@.map_values(|e: TableEntry| (e.name@, e.ty@)) == self@,
    {
        self.entries.as_slice()
    }
}

// ------------------------------------------------------------- resolution

/// Where one pass over the definitions stands: the definitions kept for a
/// later pass, the table, how many were resolved, and the error that ended
/// the pass, if one did.
pub struct PassState {
    pub kept: Seq<Definition>,
    pub table: TableView,
    pub resolved: nat,
    pub error: Option<ErrorView>,
}

/// One pass over the first `n` definitions, in order, starting from table
/// `t`: a definition that can be resolved against the table as it stands
/// goes into it under its name; one that cannot waits for the next pass.
pub open spec fn pass(defs: Seq<Definition>, t: TableView, n: int) -> PassState
    decreases n,
{
    if n <= 0 {
        PassState { kept: Seq::empty(), table: t, resolved: 0, error: None }
    } else {
        let s = pass(defs, t, n - 1);
        let d = defs[n - 1];
        if s.error is Some {
            s
        } else if !d.resolvable(s.table) {
            PassState { kept: s.kept.push(d), ..s }
        } else {
            match d.resolution(s.table) {
                Err(e) => PassState { error: Some(e), ..s },
                Ok(rt) => PassState {
                    table: s.table.push((rt.name(), rt)),
                    resolved: s.resolved + 1,
                    ..s
                },
            }
        }
    }
}

/// The reason why a definition that waits cannot be resolved.
pub open spec fn stuck_reason(d: Definition, t: TableView) -> ErrorView {
    match d.reason(t) {
        Err(e) => e,
        Ok(()) => arbitrary(),
    }
}

/// Passes over the definitions until none is left: the table they resolve
/// to; or, where a pass resolves none, the reason of each that is left; or
/// the error of a definition that cannot be laid out.
pub open spec fn resolution_rounds(defs: Seq<Definition>, t: TableView, fuel: nat) -> Result<
    TableView,
    Seq<ErrorView>,
>
    decreases fuel,
{
    if defs.len() == 0 {
        Ok(t)
    } else if fuel == 0 {
        Err(Seq::empty())
    } else {
        let s = pass(defs, t, defs.len() as int);
        match s.error {
            Some(e) => Err(seq![e]),
            None => if s.resolved == 0 {
                Err(defs.map_values(|d: Definition| stuck_reason(d, t)))
            } else {
                resolution_rounds(s.kept, s.table, (fuel - 1) as nat)
            },
        }
    }
}

/// What the definitions of a protocol resolve to, from the built-in table.
pub open spec fn resolution_of(defs: Seq<Definition>) -> Result<TableView, Seq<ErrorView>> {
    resolution_rounds(defs, builtin_table(), defs.len())
}

proof fn lemma_pass_counts(defs: Seq<Definition>, t: TableView, n: int)
    requires
        0 <= n <= defs.len(),
    ensures
        pass(defs, t, n).error is None ==> pass(defs, t, n).kept.len() + pass(defs, t, n).resolved == n,
        pass(defs, t, n).error is None && pass(defs, t, n).resolved == 0 ==> pass(defs, t, n).kept
            == defs.take(n) && pass(defs, t, n).table == t && forall|i: int|
            0 <= i < n ==> !(#[trigger] defs[i]).resolvable(t),
    decreases n,
{
    if n > 0 {
        lemma_pass_counts(defs, t, n - 1);
        assert(defs.take(n) =~= defs.take(n - 1).push(defs[n - 1]));
    } else {
        assert(defs.take(0) =~= Seq::<Definition>::empty());
    }
}

proof fn lemma_pass_error_stable(defs: Seq<Definition>, t: TableView, n: int, m: int)
    requires
        0 <= n <= m,
        pass(defs, t, n).error is Some,
    ensures
        pass(defs, t, m) == pass(defs, t, n),
    decreases m - n,
{
    if n < m {
        lemma_pass_error_stable(defs, t, n, m - 1);
    }
}

/// Resolves the definitions of a protocol: passes over them in order until
/// each has gone into the table; the protocol's name and the table of its
/// types. Where a pass resolves none, the reason of each definition left;
/// where a message cannot be laid out, why.
pub fn resolve(definitions: Definitions) -> (r: Result<(String, TypeTable), Vec<Error>>)
    requires
        forall|i: int|
            0 <= i < definitions.definitions@.len() ==> #[trigger] definitions.definitions@[i].within_limits(),
    ensures
        match r {
            Ok((protocol, table)) => protocol == definitions.protocol && table.wf()
                && resolution_of(definitions.definitions@) == Ok::<TableView, Seq<ErrorView>>(table@),
            Err(errors) => resolution_of(definitions.definitions@) == Err::<TableView, Seq<ErrorView>>(
                errors@.map_values(|e: Error| e@),
            ),
        },
{
    let ghost all = definitions.definitions@;
    let Definitions { protocol, definitions: mut defs } = definitions;
    let mut table = TypeTable::new();
    proof {
        lemma_builtin_names_distinct();
    }
    let ghost mut fuel: nat = all.len();
    while defs.len() > 0
        invariant
            table.wf(),
            defs@.len() <= fuel,
            forall|i: int| 0 <= i < defs@.len() ==> #[trigger] defs@[i].within_limits(),
            resolution_rounds(defs@, table@, fuel) == resolution_of(all),
            all == definitions.definitions@,
        decreases defs@.len(),
    {
        let ghost round = defs@;
        let ghost start = table@;
        let mut rest = defs;
        let mut kept: Vec<Definition> = Vec::new();
        let mut resolved: usize = 0;
        let ghost mut k: int = 0;
        while rest.len() > 0
            invariant
                table.wf(),
                0 <= k <= round.len(),
                rest@ == round.skip(k),
                forall|i: int| 0 <= i < round.len() ==> #[trigger] round[i].within_limits(),
                forall|i: int| 0 <= i < kept@.len() ==> #[trigger] kept@[i].within_limits(),
                round.len() <= usize::MAX,
                0 < round.len() <= fuel,
                resolution_rounds(round, start, fuel) == resolution_of(all),
                all == definitions.definitions@,
                resolved <= k,
                pass(round, start, k) == (PassState {
                    kept: kept@,
                    table: table@,
                    resolved: resolved as nat,
                    error: None,
                }),
            decreases rest@.len(),
        {
            assert(rest@[0] == round[k]);
            let d = rest.remove(0);
            assert(rest@ =~= round.skip(k + 1));
            if d.can_resolve(&table) {
                match d.resolve(&table) {
                    Ok(rt) => {
                        proof {
                            round[k].lemma_resolution_named(table@);
                        }
                        let name = rt.name();
                        table.insert(name, rt);
                        resolved = resolved + 1;
                    },
                    Err(e) => {
                        proof {
                            lemma_pass_error_stable(round, start, k + 1, round.len() as int);
                        }
                        let mut errors: Vec<Error> = Vec::new();
                        errors.push(e);
                        assert(errors@.map_values(|e: Error| e@) =~= seq![e@]);
                        assert(pass(round, start, k + 1).error == Some(e@));
                        assert(pass(round, start, round.len() as int).error == Some(e@));
                        assert(resolution_rounds(round, start, fuel) == Err::<TableView, Seq<ErrorView>>(seq![e@]));
                        return Err(errors);
                    },
                }
            } else {
                kept.push(d);
            }
            proof {
                k = k + 1;
            }
        }
        assert(round.skip(k).len() == 0);
        proof {
            lemma_pass_counts(round, start, k);
        }
        if resolved == 0 {
            let mut reasons: Vec<Error> = Vec::new();
            let mut i: usize = 0;
            assert(kept@ =~= round);
            while i < kept.len()
                invariant
                    table.wf(),
                    table@ == start,
                    kept@ == round,
                    i <= kept@.len(),
                    pass(round, start, round.len() as int).resolved == 0,
                    pass(round, start, round.len() as int).error is None,
                    forall|j: int| 0 <= j < round.len() ==> !(#[trigger] round[j]).resolvable(start),
                    0 < round.len() <= fuel,
                    resolution_rounds(round, start, fuel) == resolution_of(all),
                    all == definitions.definitions@,
                    reasons@.map_values(|e: Error| e@) == round.take(i as int).map_values(
                        |d: Definition| stuck_reason(d, start),
                    ),
                decreases kept@.len() - i,
            {
                assert(!round[i as int].resolvable(start));
                proof {
                    round[i as int].lemma_reason_when_stuck(start);
                }
                let ghost before = reasons@.map_values(|e: Error| e@);
                match kept[i].get_reason(&table) {
                    Err(e) => {
                        reasons.push(e);
                    },
                    Ok(()) => {},
                }
                assert(reasons@.map_values(|e: Error| e@) =~= before.push(stuck_reason(round[i as int], start)));
                assert(round.take(i as int + 1) =~= round.take(i as int).push(round[i as int]));
                i = i + 1;
            }
            assert(round.take(i as int) =~= round);
            return Err(reasons);
        }
        defs = kept;
        proof {
            fuel = (fuel - 1) as nat;
        }
    }
    Ok((protocol, table))
}

proof fn lemma_pass_grows(defs: Seq<Definition>, t: TableView, n: int)
    requires
        0 <= n <= defs.len(),
        pass(defs, t, n).error is None,
    ensures
        pass(defs, t, n).table.len() == t.len() + pass(defs, t, n).resolved,
        pass(defs, t, n).table.take(t.len() as int) == t,
    decreases n,
{
    if n > 0 {
        let s = pass(defs, t, n - 1);
        if s.error is None {
            lemma_pass_grows(defs, t, n - 1);
            assert(pass(defs, t, n).table.take(t.len() as int) =~= s.table.take(t.len() as int));
        } else {
            lemma_pass_error_stable(defs, t, n - 1, n);
        }
    }
}

proof fn lemma_rounds_complete(defs: Seq<Definition>, t: TableView, fuel: nat)
    ensures
        resolution_rounds(defs, t, fuel) matches Ok(r) ==> r.len() == t.len() + defs.len()
            && r.take(t.len() as int) == t,
    decreases fuel,
{
    if defs.len() == 0 {
        assert(t.take(t.len() as int) =~= t);
    } else if fuel > 0 {
        let s = pass(defs, t, defs.len() as int);
        if s.error is None && s.resolved > 0 {
            lemma_pass_counts(defs, t, defs.len() as int);
            lemma_pass_grows(defs, t, defs.len() as int);
            lemma_rounds_complete(s.kept, s.table, (fuel - 1) as nat);
            let res = resolution_rounds(defs, t, fuel);
            if res is Ok {
                let r = res->Ok_0;
                assert(r.take(t.len() as int) =~= r.take(s.table.len() as int).take(t.len() as int));
            }
        }
    }
}

/// Resolution either fails or resolves every definition: the table it
/// gives holds the built-in types, unchanged and first, and one more entry
/// for each definition.
pub proof fn lemma_resolution_complete(defs: Seq<Definition>)
    ensures
        resolution_of(defs) matches Ok(t) ==> t.len() == builtin_table().len() + defs.len()
            && t.take(builtin_table().len() as int) == builtin_table(),
{
    lemma_rounds_complete(defs, builtin_table(), defs.len());
}

} // verus!
