//! The transform itself: extracting a translation table from a recognized
//! call's arguments, building the replacement call, and the single
//! post-order pass over an expression tree.

use vstd::prelude::*;
use vstd::string::StringExecFns;
use vstd::string::StringSliceAdditionalSpecFns;

use crate::ast::{Arg, ArgV, Expr, ExprV, Prop, PropKey, PropKeyV, PropV};
use crate::ast::{lemma_view_args, lemma_view_exprs, lemma_view_props};
use crate::ast::{view_args, view_exprs, view_props};
use crate::config::PluginConfig;
use crate::hash::fingerprint;
use crate::hash::generate_hash;
use crate::names::{get_pair_mapping, is_translation_fn, lemma_pair_distinct, pair_of, recognized};
use crate::table::{table_upsert, Translations};

verus! {

broadcast use vstd::std_specs::vec::group_vec_axioms;

/// The plain string a property key resolves to, whichever form it takes.
pub open spec fn key_string(k: PropKeyV) -> Seq<char> {
    match k {
        PropKeyV::Ident(s) => s,
        PropKeyV::Str(s) => s,
    }
}

/// The table entry a single object property yields: only a simple key-value
/// property whose value is a literal string yields one.
pub open spec fn prop_entry(p: PropV) -> Option<(Seq<char>, Seq<char>)> {
    match p {
        PropV::KeyValue(k, v) => match v {
            ExprV::Str(s) => Some((key_string(k), s)),
            _ => None,
        },
        PropV::Opaque(_, _) => None,
    }
}

/// The table collected from an object literal's properties, in order of
/// appearance; a duplicate key replaces the earlier value in place.
pub open spec fn object_table(props: Seq<PropV>) -> Seq<(Seq<char>, Seq<char>)>
    decreases props.len(),
{
    if props.len() == 0 {
        Seq::empty()
    } else {
        let rest = object_table(props.drop_last());
        match prop_entry(props.last()) {
            Some(e) => table_upsert(rest, e.0, e.1),
            None => rest,
        }
    }
}

/// The two-entry table of the shorthand form: the two values keyed by the
/// codes the function name implies, in that order.
pub open spec fn shorthand_table(name: Seq<char>, v1: Seq<char>, v2: Seq<char>) -> Seq<
    (Seq<char>, Seq<char>),
> {
    seq![(pair_of(name).0, v1), (pair_of(name).1, v2)]
}

/// What extraction yields for a recognized call named `name` with arguments
/// `args`: the translation table and the index of the passthrough argument,
/// if any. `None` when neither accepted shape matches, in which case the
/// call is left untouched. Only the argument expressions are consulted;
/// spread markers play no part in shape recognition.
pub open spec fn extraction(name: Seq<char>, args: Seq<ArgV>) -> Option<
    (Seq<(Seq<char>, Seq<char>)>, Option<int>),
> {
    if args.len() >= 1 && args[0].expr is Object && object_table(args[0].expr->Object_0).len()
        > 0 {
        Some(
            (
                object_table(args[0].expr->Object_0),
                if args.len() >= 2 {
                    Some(1int)
                } else {
                    None
                },
            ),
        )
    } else if args.len() >= 2 && args[0].expr is Str && args[1].expr is Str {
        Some(
            (
                shorthand_table(name, args[0].expr->Str_0, args[1].expr->Str_0),
                if args.len() >= 3 {
                    Some(2int)
                } else {
                    None
                },
            ),
        )
    } else {
        None
    }
}

/// The object-literal properties a table is emitted as: one
/// identifier-keyed, string-valued property per entry, in table order.
pub open spec fn table_props(t: Seq<(Seq<char>, Seq<char>)>) -> Seq<PropV> {
    Seq::new(t.len(), |i: int| PropV::KeyValue(PropKeyV::Ident(t[i].0), ExprV::Str(t[i].1)))
}

/// The call that replaces a recognized one: the configured runtime function
/// applied to the fingerprint of the first table value, the canonical
/// table, and the passthrough argument if one was extracted.
pub open spec fn replacement(
    cfg: Seq<char>,
    t: Seq<(Seq<char>, Seq<char>)>,
    vars: Option<ArgV>,
) -> ExprV
    recommends
        t.len() > 0,
{
    let hash_arg = ArgV { spread: false, expr: ExprV::Str(fingerprint(vstd::utf8::encode_utf8(t[0].1))) };
    let table_arg = ArgV { spread: false, expr: ExprV::Object(table_props(t)) };
    let args = match vars {
        Some(a) => seq![hash_arg, table_arg, a],
        None => seq![hash_arg, table_arg],
    };
    ExprV::Call(Box::new(ExprV::Ident(cfg)), args)
}

/// The rewriting decision for one call: a call whose callee is a plain
/// identifier in the recognized set and whose arguments yield a table is
/// replaced; every other call is kept as it is (`None`).
pub open spec fn transform_call_spec(cfg: Seq<char>, callee: ExprV, args: Seq<ArgV>) -> Option<
    ExprV,
> {
    match callee {
        ExprV::Ident(name) => if recognized(name) {
            match extraction(name, args) {
                Some((t, vi)) => Some(
                    replacement(
                        cfg,
                        t,
                        match vi {
                            Some(i) => Some(args[i]),
                            None => None,
                        },
                    ),
                ),
                None => None,
            }
        } else {
            None
        },
        _ => None,
    }
}

/// The whole transform of one expression: one post-order pass; children are
/// rewritten first, then the call decision is applied to the current node.
pub open spec fn transform_expr_spec(cfg: Seq<char>, e: ExprV) -> ExprV
    decreases e,
{
    match e {
        ExprV::Str(_) => e,
        ExprV::Ident(_) => e,
        ExprV::Object(props) => ExprV::Object(transform_props_spec(cfg, props)),
        ExprV::Call(callee, args) => {
            let c = transform_expr_spec(cfg, *callee);
            let a = transform_args_spec(cfg, args);
            match transform_call_spec(cfg, c, a) {
                Some(r) => r,
                None => ExprV::Call(Box::new(c), a),
            }
        },
        ExprV::Opaque(tag, children) => ExprV::Opaque(tag, transform_exprs_spec(cfg, children)),
    }
}

/// The transform applied to each expression of a sequence.
pub open spec fn transform_exprs_spec(cfg: Seq<char>, v: Seq<ExprV>) -> Seq<ExprV>
    decreases v,
{
    if v.len() == 0 {
        Seq::empty()
    } else {
        transform_exprs_spec(cfg, v.drop_last()).push(transform_expr_spec(cfg, v.last()))
    }
}

/// The transform applied to one object property: its value expression, or
/// the children of an opaque property.
pub open spec fn transform_prop_spec(cfg: Seq<char>, p: PropV) -> PropV
    decreases p,
{
    match p {
        PropV::KeyValue(k, v) => PropV::KeyValue(k, transform_expr_spec(cfg, v)),
        PropV::Opaque(tag, children) => PropV::Opaque(tag, transform_exprs_spec(cfg, children)),
    }
}

/// The transform applied to each property of a sequence.
pub open spec fn transform_props_spec(cfg: Seq<char>, v: Seq<PropV>) -> Seq<PropV>
    decreases v,
{
    if v.len() == 0 {
        Seq::empty()
    } else {
        transform_props_spec(cfg, v.drop_last()).push(transform_prop_spec(cfg, v.last()))
    }
}

/// The transform applied to one argument: the spread marker is kept, the
/// expression is rewritten.
pub open spec fn transform_arg_spec(cfg: Seq<char>, a: ArgV) -> ArgV
    decreases a,
{
    ArgV { spread: a.spread, expr: transform_expr_spec(cfg, a.expr) }
}

/// The transform applied to each argument of a sequence.
pub open spec fn transform_args_spec(cfg: Seq<char>, v: Seq<ArgV>) -> Seq<ArgV>
    decreases v,
{
    if v.len() == 0 {
        Seq::empty()
    } else {
        transform_args_spec(cfg, v.drop_last()).push(transform_arg_spec(cfg, v.last()))
    }
}

/// Elementwise reading of `transform_exprs_spec`.
pub proof fn lemma_transform_exprs(cfg: Seq<char>, v: Seq<ExprV>)
    ensures
        transform_exprs_spec(cfg, v).len() == v.len(),
        forall|i: int|
            0 <= i < v.len() ==> transform_exprs_spec(cfg, v)[i] == transform_expr_spec(
                cfg,
                #[trigger] v[i],
            ),
    decreases v.len(),
{
    if v.len() > 0 {
        lemma_transform_exprs(cfg, v.drop_last());
        assert(transform_exprs_spec(cfg, v) == transform_exprs_spec(cfg, v.drop_last()).push(
            transform_expr_spec(cfg, v.last()),
        ));
        assert forall|i: int| 0 <= i < v.len() implies transform_exprs_spec(cfg, v)[i]
            == transform_expr_spec(cfg, #[trigger] v[i]) by {
            if i < v.len() - 1 {
                assert(v.drop_last()[i] == v[i]);
            } else {
                assert(v.last() == v[i]);
            }
        }
    }
}

/// Elementwise reading of `transform_props_spec`.
pub proof fn lemma_transform_props(cfg: Seq<char>, v: Seq<PropV>)
    ensures
        transform_props_spec(cfg, v).len() == v.len(),
        forall|i: int|
            0 <= i < v.len() ==> transform_props_spec(cfg, v)[i] == transform_prop_spec(
                cfg,
                #[trigger] v[i],
            ),
    decreases v.len(),
{
    if v.len() > 0 {
        lemma_transform_props(cfg, v.drop_last());
        assert(transform_props_spec(cfg, v) == transform_props_spec(cfg, v.drop_last()).push(
            transform_prop_spec(cfg, v.last()),
        ));
        assert forall|i: int| 0 <= i < v.len() implies transform_props_spec(cfg, v)[i]
            == transform_prop_spec(cfg, #[trigger] v[i]) by {
            if i < v.len() - 1 {
                assert(v.drop_last()[i] == v[i]);
            } else {
                assert(v.last() == v[i]);
            }
        }
    }
}

/// Elementwise reading of `transform_args_spec`.
pub proof fn lemma_transform_args(cfg: Seq<char>, v: Seq<ArgV>)
    ensures
        transform_args_spec(cfg, v).len() == v.len(),
        forall|i: int|
            0 <= i < v.len() ==> transform_args_spec(cfg, v)[i] == transform_arg_spec(
                cfg,
                #[trigger] v[i],
            ),
    decreases v.len(),
{
    if v.len() > 0 {
        lemma_transform_args(cfg, v.drop_last());
        assert(transform_args_spec(cfg, v) == transform_args_spec(cfg, v.drop_last()).push(
            transform_arg_spec(cfg, v.last()),
        ));
        assert forall|i: int| 0 <= i < v.len() implies transform_args_spec(cfg, v)[i]
            == transform_arg_spec(cfg, #[trigger] v[i]) by {
            if i < v.len() - 1 {
                assert(v.drop_last()[i] == v[i]);
            } else {
                assert(v.last() == v[i]);
            }
        }
    }
}


/// The visitor that carries the configuration through one traversal.
pub struct TransformVisitor {
    pub config: PluginConfig,
}

impl TransformVisitor {
    /// A visitor for one traversal under `config`.
    pub fn new(config: PluginConfig) -> (r: TransformVisitor)
        ensures
            r.config == config,
    {
        TransformVisitor { config }
    }

    /// The string of a literal-string expression; `None` for every other
    /// expression kind.
    pub fn get_string_value(&self, expr: &Expr) -> (r: Option<String>)
        ensures
            (r is Some) == (expr@ is Str),
            r is Some ==> r.unwrap()@ == expr@->Str_0,
    {
        match expr {
            Expr::Str(s) => Some(s.clone()),
            _ => None,
        }
    }

    /// Collects the translation table of an object literal: every simple
    /// key-value property whose value is a literal string, in order of
    /// appearance; other properties are skipped. `None` when no property
    /// qualifies.
    pub fn extract_object_translations(&self, props: &Vec<Prop>) -> (r: Option<Translations>)
        ensures
            (r is Some) == (object_table(view_props(props@)).len() > 0),
            r is Some ==> r.unwrap()@ == object_table(view_props(props@)) && r.unwrap().wf(),
    {
        let ghost pv = view_props(props@);
        proof {
            lemma_view_props(props@);
        }
        let mut t = Translations::new();
        let n = props.len();
        let mut i: usize = 0;
        while i < n
            invariant
                pv == view_props(props@),
                pv.len() == props@.len(),
                forall|j: int| 0 <= j < props@.len() ==> pv[j] == #[trigger] props@[j]@,
                n == props@.len(),
                i <= n,
                t@ == object_table(pv.take(i as int)),
                t.wf(),
            decreases n - i,
        {
            proof {
                assert(pv[i as int] == props@[i as int]@);
            }
            match &props[i] {
                Prop::KeyValue(k, v) => {
                    match v {
                        Expr::Str(s) => {
                            let key = match k {
                                PropKey::Ident(ks) => ks.clone(),
                                PropKey::Str(ks) => ks.clone(),
                            };
                            proof {
                                assert(key@ == key_string(k@));
                                assert(prop_entry(pv[i as int]) == Some((key@, s@)));
                            }
                            t.insert(key, s.clone());
                        },
                        _ => {
                            proof {
                                assert(prop_entry(pv[i as int]) is None);
                            }
                        },
                    }
                },
                Prop::Opaque(_, _) => {
                    proof {
                        assert(prop_entry(pv[i as int]) is None);
                    }
                },
            }
            proof {
                assert(pv.take(i + 1).drop_last() =~= pv.take(i as int));
                assert(pv.take(i + 1).last() == pv[i as int]);
                assert(t@ == object_table(pv.take(i + 1)));
            }
            i = i + 1;
        }
        proof {
            assert(pv.take(n as int) =~= pv);
        }
        if t.len() == 0 {
            None
        } else {
            Some(t)
        }
    }

    /// Attempts extraction for a call named `name`: the object form first,
    /// the positional shorthand second. On success the table is returned
    /// with the index of the passthrough argument, if there is one.
    fn extract_from_args(&self, name: &str, args: &Vec<Arg>) -> (r: Option<
        (Translations, Option<usize>),
    >)
        ensures
            (r is Some) == (extraction(name@, view_args(args@)) is Some),
            r is Some ==> {
                let (t, vi) = extraction(name@, view_args(args@)).unwrap();
                &&& r.unwrap().0@ == t
                &&& r.unwrap().0.wf()
                &&& t.len() > 0
                &&& (r.unwrap().1 is Some) == (vi is Some)
                &&& (vi is Some ==> r.unwrap().1.unwrap() as int == vi.unwrap())
            },
    {
        proof {
            lemma_view_args(args@);
        }
        if args.len() == 0 {
            return None;
        }
        let first = &args[0];
        if let Expr::Object(props) = &first.expr {
            proof {
                assert(view_args(args@)[0] == args@[0]@);
                assert(args@[0].expr@ is Object);
                assert(view_args(args@)[0].expr->Object_0 == view_props(props@));
            }
            return match self.extract_object_translations(props) {
                Some(t) => Some(
                    (
                        t,
                        if args.len() >= 2 {
                            Some(1usize)
                        } else {
                            None
                        },
                    ),
                ),
                None => None,
            };
        }
        proof {
            assert(view_args(args@)[0] == args@[0]@);
            assert(!(view_args(args@)[0].expr is Object));
        }
        if args.len() >= 2 {
            let v1 = self.get_string_value(&args[0].expr);
            let v2 = self.get_string_value(&args[1].expr);
            proof {
                assert(view_args(args@)[0] == args@[0]@);
                assert(view_args(args@)[1] == args@[1]@);
            }
            if v1.is_some() && v2.is_some() {
                let (c1, c2) = get_pair_mapping(name);
                let mut t = Translations::new();
                t.insert(String::from_str(c1), v1.unwrap());
                t.insert(String::from_str(c2), v2.unwrap());
                proof {
                    lemma_pair_distinct(name@);
                    let p0 = pair_of(name@).0;
                    let p1 = pair_of(name@).1;
                    let w1 = view_args(args@)[0].expr->Str_0;
                    let w2 = view_args(args@)[1].expr->Str_0;
                    assert(table_upsert(Seq::<(Seq<char>, Seq<char>)>::empty(), p0, w1) =~= seq![
                        (p0, w1),
                    ]);
                    assert(seq![(p0, w1)].drop_first() =~= Seq::<(Seq<char>, Seq<char>)>::empty());
                    assert(table_upsert(Seq::<(Seq<char>, Seq<char>)>::empty(), p1, w2) =~= seq![
                        (p1, w2),
                    ]);
                    assert(table_upsert(seq![(p0, w1)], p1, w2) =~= seq![(p0, w1), (p1, w2)]);
                    assert(t@ =~= shorthand_table(name@, w1, w2));
                }
                return Some(
                    (
                        t,
                        if args.len() >= 3 {
                            Some(2usize)
                        } else {
                            None
                        },
                    ),
                );
            }
        }
        None
    }
    /// Builds the emitted object literal for a table: one identifier-keyed,
    /// string-valued property per entry, in table order.
    pub fn build_object_lit(&self, t: &Translations) -> (r: Vec<Prop>)
        ensures
            view_props(r@) == table_props(t@),
    {
        let mut props: Vec<Prop> = Vec::new();
        let n = t.len();
        let mut i: usize = 0;
        while i < n
            invariant
                n == t@.len(),
                i <= n,
                props@.len() == i,
                forall|j: int| 0 <= j < i ==> #[trigger] props@[j]@ == table_props(t@)[j],
            decreases n - i,
        {
            let e = t.entry_at(i);
            props.push(Prop::KeyValue(PropKey::Ident(e.0.clone()), Expr::Str(e.1.clone())));
            i = i + 1;
        }
        proof {
            lemma_view_props(props@);
            assert forall|j: int| 0 <= j < props@.len() implies view_props(props@)[j]
                == table_props(t@)[j] by {
                assert(props@[j]@ == table_props(t@)[j]);
            }
            assert(view_props(props@) =~= table_props(t@));
        }
        props
    }

    /// Rewrites one call when its callee is a recognized translation name
    /// and its arguments yield a table; rebuilds the call unchanged
    /// otherwise. The replacement targets the configured runtime function
    /// and carries the content hash, the canonical table, and the
    /// passthrough argument if one was extracted.
    pub fn transform_call(&self, callee: Expr, args: Vec<Arg>) -> (r: Expr)
        ensures
            r@ == match transform_call_spec(
                self.config.runtime_function@,
                callee@,
                view_args(args@),
            ) {
                Some(n) => n,
                None => ExprV::Call(Box::new(callee@), view_args(args@)),
            },
    {
        let ghost cfg = self.config.runtime_function@;
        let ext: Option<(Translations, Option<usize>)>;
        match &callee {
            Expr::Ident(name) => {
                if is_translation_fn(name.as_str()) {
                    ext = self.extract_from_args(name.as_str(), &args);
                    proof {
                        assert((ext is Some) == (transform_call_spec(
                            cfg,
                            callee@,
                            view_args(args@),
                        ) is Some));
                    }
                } else {
                    ext = None;
                    proof {
                        assert(transform_call_spec(cfg, callee@, view_args(args@)) is None);
                    }
                }
            },
            _ => {
                ext = None;
                proof {
                    assert(transform_call_spec(cfg, callee@, view_args(args@)) is None);
                }
            },
        }
        match ext {
            None => {
                let ghost c0 = callee@;
                let ghost a0 = view_args(args@);
                let out = Expr::Call(Box::new(callee), args);
                proof {
                    assert(transform_call_spec(cfg, c0, a0) is None);
                    assert(out@ == ExprV::Call(Box::new(c0), a0));
                    assert(cfg == self.config.runtime_function@);
                    assert(c0 == callee@);
                    assert(a0 == view_args(args@));
                }
                out
            },
            Some((t, vi)) => {
                let ghost spec_ext = match callee@ {
                    ExprV::Ident(name) => extraction(name, view_args(args@)),
                    _ => None,
                };
                let hash = generate_hash(t.first_value().as_str());
                let obj = self.build_object_lit(&t);
                let mut new_args: Vec<Arg> = Vec::new();
                new_args.push(Arg { spread: false, expr: Expr::Str(hash) });
                new_args.push(Arg { spread: false, expr: Expr::Object(obj) });
                proof {
                    lemma_view_args(args@);
                }
                let mut rest = args;
                match vi {
                    Some(i) => {
                        let vars = rest.remove(i);
                        new_args.push(vars);
                        proof {
                            assert(new_args@[2]@ == view_args(args@)[i as int]);
                        }
                    },
                    None => {},
                }
                let rt = self.config.runtime_function.clone();
                proof {
                    assert(rt@ == cfg);
                }
                let inner = Expr::Ident(rt);
                let ghost iv = inner@;
                let b = Box::new(inner);
                proof {
                    assert(iv == ExprV::Ident(cfg));
                    assert((*b)@ == iv);
                }
                let out = Expr::Call(b, new_args);
                proof {
                    lemma_view_args(new_args@);
                    assert(new_args@[0]@ == ArgV { spread: false, expr: ExprV::Str(hash@) });
                    assert(new_args@[1]@ == ArgV {
                        spread: false,
                        expr: ExprV::Object(table_props(t@)),
                    });
                    let spec_vars = match spec_ext.unwrap().1 {
                        Some(i) => Some(view_args(args@)[i]),
                        None => None,
                    };
                    assert(view_args(new_args@) =~= match spec_vars {
                        Some(a) => seq![
                            ArgV { spread: false, expr: ExprV::Str(hash@) },
                            ArgV { spread: false, expr: ExprV::Object(table_props(t@)) },
                            a,
                        ],
                        None => seq![
                            ArgV { spread: false, expr: ExprV::Str(hash@) },
                            ArgV { spread: false, expr: ExprV::Object(table_props(t@)) },
                        ],
                    });
                    assert(hash@ == fingerprint(vstd::utf8::encode_utf8(spec_ext.unwrap().0[0].1)));
                    assert(view_args(new_args@) == replacement(
                        cfg,
                        spec_ext.unwrap().0,
                        spec_vars,
                    )->Call_1);
                    assert(out@ is Call);
                    assert(out@->Call_1 == view_args(new_args@));
                    assert(out@->Call_0 == Box::new(ExprV::Ident(cfg)));
                    assert(out@ == ExprV::Call(Box::new(ExprV::Ident(cfg)), view_args(new_args@)));
                    assert(out@ == replacement(cfg, spec_ext.unwrap().0, spec_vars));
                    assert(transform_call_spec(cfg, callee@, view_args(args@)) == Some(
                        replacement(cfg, spec_ext.unwrap().0, spec_vars),
                    ));
                }
                out
            },
        }
    }
    /// One post-order pass over an expression: children are rewritten
    /// first, then the call decision is applied at this node. Every node is
    /// visited exactly once; nodes that are not rewritten come back as they
    /// were.
    #[verifier::loop_isolation(false)]
    pub fn transform_expr(&self, e: Expr) -> (r: Expr)
        ensures
            r@ == transform_expr_spec(self.config.runtime_function@, e@),
        decreases e,
    {
        let ghost cfg = self.config.runtime_function@;
        let ghost e0 = e;
        match e {
            Expr::Str(s) => Expr::Str(s),
            Expr::Ident(s) => Expr::Ident(s),
            Expr::Object(props) => {
                let ghost props0 = props@;
                let mut rest = props;
                let mut out: Vec<Prop> = Vec::new();
                while rest.len() > 0
                    invariant
                        cfg == self.config.runtime_function@,
                        e0 is Object,
                        e0->Object_0@ == props0,
                        out@.len() + rest@.len() == props0.len(),
                        rest@ == props0.skip(out@.len() as int),
                        forall|j: int|
                            0 <= j < out@.len() ==> #[trigger] out@[j]@ == transform_prop_spec(
                                cfg,
                                props0[j]@,
                            ),
                    decreases rest@.len(),
                {
                    let ghost idx = out@.len() as int;
                    let p = rest.remove(0);
                    let ghost p0 = p;
                    proof {
                        assert(p0 == props0[idx]);
                        assert(decreases_to!(e0 => e0->Object_0));
                        assert(decreases_to!(e0->Object_0 => e0->Object_0@));
                        assert(decreases_to!(e0->Object_0@ => e0->Object_0@[idx]));
                    }
                    let q: Prop = match p {
                        Prop::KeyValue(k, v) => {
                            proof {
                                assert(p0 == Prop::KeyValue(k, v));
                                assert(decreases_to!(p0 => v));
                            }
                            Prop::KeyValue(k, self.transform_expr(v))
                        },
                        Prop::Opaque(tag, children) => {
                            let ghost cs0 = children@;
                            proof {
                                assert(p0 == Prop::Opaque(tag, children));
                                assert(decreases_to!(p0 => children));
                                assert(decreases_to!(children => children@));
                            }
                            let mut crest = children;
                            let mut cout: Vec<Expr> = Vec::new();
                            while crest.len() > 0
                                invariant
                                    cfg == self.config.runtime_function@,
                                    e0 is Object,
                                    e0->Object_0@ == props0,
                                    0 <= idx < props0.len(),
                                    p0 == props0[idx],
                                    p0 is Opaque,
                                    p0->Opaque_1@ == cs0,
                                    cout@.len() + crest@.len() == cs0.len(),
                                    crest@ == cs0.skip(cout@.len() as int),
                                    forall|j: int|
                                        0 <= j < cout@.len() ==> #[trigger] cout@[j]@
                                            == transform_expr_spec(cfg, cs0[j]@),
                                decreases crest@.len(),
                            {
                                let ghost cidx = cout@.len() as int;
                                let c = crest.remove(0);
                                proof {
                                    assert(c == cs0[cidx]);
                                    assert(decreases_to!(e0 => e0->Object_0));
                                    assert(decreases_to!(e0->Object_0 => e0->Object_0@));
                                    assert(decreases_to!(e0->Object_0@ => e0->Object_0@[idx]));
                                    assert(decreases_to!(p0 => p0->Opaque_1));
                                    assert(decreases_to!(p0->Opaque_1 => p0->Opaque_1@));
                                    assert(decreases_to!(p0->Opaque_1@ => p0->Opaque_1@[cidx]));
                                }
                                let nc = self.transform_expr(c);
                                cout.push(nc);
                            }
                            proof {
                                assert(cs0.skip(cout@.len() as int) =~= cs0.skip(cs0.len() as int));
                                assert(cout@.len() == cs0.len());
                                lemma_view_exprs(cout@);
                                lemma_view_exprs(cs0);
                                lemma_transform_exprs(cfg, view_exprs(cs0));
                                assert forall|j: int| 0 <= j < cs0.len() implies view_exprs(
                                    cout@,
                                )[j] == transform_exprs_spec(cfg, view_exprs(cs0))[j] by {
                                    assert(cout@[j]@ == transform_expr_spec(cfg, cs0[j]@));
                                    assert(view_exprs(cs0)[j] == cs0[j]@);
                                }
                                assert(view_exprs(cout@) =~= transform_exprs_spec(
                                    cfg,
                                    view_exprs(cs0),
                                ));
                            }
                            Prop::Opaque(tag, cout)
                        },
                    };
                    proof {
                        assert(q@ == transform_prop_spec(cfg, props0[idx]@));
                        assert(rest@ == props0.skip(idx + 1));
                    }
                    out.push(q);
                }
                proof {
                    assert(out@.len() == props0.len());
                    lemma_view_props(out@);
                    lemma_view_props(props0);
                    lemma_transform_props(cfg, view_props(props0));
                    assert forall|j: int| 0 <= j < props0.len() implies view_props(out@)[j]
                        == transform_props_spec(cfg, view_props(props0))[j] by {
                        assert(out@[j]@ == transform_prop_spec(cfg, props0[j]@));
                        assert(view_props(props0)[j] == props0[j]@);
                    }
                    assert(view_props(out@) =~= transform_props_spec(cfg, view_props(props0)));
                    assert(e0@ == ExprV::Object(view_props(props0)));
                }
                Expr::Object(out)
            },
            Expr::Call(callee, args) => {
                proof {
                    assert(decreases_to!(e0 => e0->Call_0));
                    assert(*callee == e0->Call_0);
                }
                let c = self.transform_expr(*callee);
                let ghost args0 = args@;
                let mut rest = args;
                let mut out_args: Vec<Arg> = Vec::new();
                while rest.len() > 0
                    invariant
                        cfg == self.config.runtime_function@,
                        e0 is Call,
                        e0->Call_1@ == args0,
                        out_args@.len() + rest@.len() == args0.len(),
                        rest@ == args0.skip(out_args@.len() as int),
                        forall|j: int|
                            0 <= j < out_args@.len() ==> #[trigger] out_args@[j]@
                                == transform_arg_spec(cfg, args0[j]@),
                    decreases rest@.len(),
                {
                    let ghost idx = out_args@.len() as int;
                    let a = rest.remove(0);
                    let ghost a0 = a;
                    proof {
                        assert(a0 == args0[idx]);
                        assert(decreases_to!(e0 => e0->Call_1));
                        assert(decreases_to!(e0->Call_1 => e0->Call_1@));
                        assert(decreases_to!(e0->Call_1@ => e0->Call_1@[idx]));
                        assert(decreases_to!(a0 => a0.expr));
                    }
                    let Arg { spread, expr } = a;
                    let ne = self.transform_expr(expr);
                    out_args.push(Arg { spread, expr: ne });
                }
                proof {
                    assert(out_args@.len() == args0.len());
                    lemma_view_args(out_args@);
                    lemma_view_args(args0);
                    lemma_transform_args(cfg, view_args(args0));
                    assert forall|j: int| 0 <= j < args0.len() implies view_args(out_args@)[j]
                        == transform_args_spec(cfg, view_args(args0))[j] by {
                        assert(out_args@[j]@ == transform_arg_spec(cfg, args0[j]@));
                        assert(view_args(args0)[j] == args0[j]@);
                    }
                    assert(view_args(out_args@) =~= transform_args_spec(cfg, view_args(args0)));
                    assert(e0@ == ExprV::Call(Box::new(e0->Call_0@), view_args(args0)));
                }
                self.transform_call(c, out_args)
            },
            Expr::Opaque(tag, children) => {
                let ghost cs0 = children@;
                let mut crest = children;
                let mut cout: Vec<Expr> = Vec::new();
                while crest.len() > 0
                    invariant
                        cfg == self.config.runtime_function@,
                        e0 is Opaque,
                        e0->Opaque_1@ == cs0,
                        cout@.len() + crest@.len() == cs0.len(),
                        crest@ == cs0.skip(cout@.len() as int),
                        forall|j: int|
                            0 <= j < cout@.len() ==> #[trigger] cout@[j]@ == transform_expr_spec(
                                cfg,
                                cs0[j]@,
                            ),
                    decreases crest@.len(),
                {
                    let ghost cidx = cout@.len() as int;
                    let c = crest.remove(0);
                    proof {
                        assert(c == cs0[cidx]);
                        assert(decreases_to!(e0 => e0->Opaque_1));
                        assert(decreases_to!(e0->Opaque_1 => e0->Opaque_1@));
                        assert(decreases_to!(e0->Opaque_1@ => e0->Opaque_1@[cidx]));
                    }
                    let nc = self.transform_expr(c);
                    cout.push(nc);
                }
                proof {
                    assert(cout@.len() == cs0.len());
                    lemma_view_exprs(cout@);
                    lemma_view_exprs(cs0);
                    lemma_transform_exprs(cfg, view_exprs(cs0));
                    assert forall|j: int| 0 <= j < cs0.len() implies view_exprs(cout@)[j]
                        == transform_exprs_spec(cfg, view_exprs(cs0))[j] by {
                        assert(cout@[j]@ == transform_expr_spec(cfg, cs0[j]@));
                        assert(view_exprs(cs0)[j] == cs0[j]@);
                    }
                    assert(view_exprs(cout@) =~= transform_exprs_spec(cfg, view_exprs(cs0)));
                    assert(e0@ == ExprV::Opaque(e0->Opaque_0, view_exprs(cs0)));
                }
                Expr::Opaque(tag, cout)
            },
        }
    }
}

/// Law: a recognized-name call in object form, with at least one literal
/// string property, is rewritten. Its first argument becomes a string
/// literal of one to eight characters (the content hash), and its second an
/// object literal holding exactly the literal key/value pairs collected
/// from the input object (non-literal-valued properties excluded, the
/// others untouched), in order of first appearance.
pub proof fn lemma_object_form_rewrite(cfg: Seq<char>, name: Seq<char>, args: Seq<ArgV>)
    requires
        recognized(name),
        args.len() >= 1,
        args[0].expr is Object,
        object_table(args[0].expr->Object_0).len() > 0,
    ensures
        transform_call_spec(cfg, ExprV::Ident(name), args) is Some,
        ({
            let r = transform_call_spec(cfg, ExprV::Ident(name), args).unwrap();
            let t = object_table(args[0].expr->Object_0);
            &&& r is Call
            &&& r->Call_0 == Box::new(ExprV::Ident(cfg))
            &&& r->Call_1.len() >= 2
            &&& r->Call_1[0].expr is Str
            &&& 1 <= r->Call_1[0].expr->Str_0.len() <= 8
            &&& r->Call_1[1].expr is Object
            &&& r->Call_1[1].expr->Object_0 == table_props(t)
            &&& table_props(t).len() == t.len()
            &&& forall|i: int|
                0 <= i < t.len() ==> #[trigger] table_props(t)[i] == PropV::KeyValue(
                    PropKeyV::Ident(t[i].0),
                    ExprV::Str(t[i].1),
                )
        }),
{
    let t = object_table(args[0].expr->Object_0);
    crate::hash::lemma_fingerprint_len(vstd::utf8::encode_utf8(t[0].1));
}

/// Law: a recognized-name call in shorthand form (two literal string
/// arguments) is rewritten, and its emitted table has exactly two entries:
/// the first argument's string keyed by the first code the name implies,
/// the second argument's string keyed by the second code, in that order;
/// the two keys are distinct.
pub proof fn lemma_shorthand_rewrite(cfg: Seq<char>, name: Seq<char>, args: Seq<ArgV>)
    requires
        recognized(name),
        args.len() >= 2,
        args[0].expr is Str,
        args[1].expr is Str,
    ensures
        transform_call_spec(cfg, ExprV::Ident(name), args) is Some,
        ({
            let r = transform_call_spec(cfg, ExprV::Ident(name), args).unwrap();
            let t = shorthand_table(name, args[0].expr->Str_0, args[1].expr->Str_0);
            &&& r is Call
            &&& r->Call_0 == Box::new(ExprV::Ident(cfg))
            &&& r->Call_1[1].expr is Object
            &&& r->Call_1[1].expr->Object_0 == table_props(t)
            &&& t.len() == 2
            &&& t[0] == (pair_of(name).0, args[0].expr->Str_0)
            &&& t[1] == (pair_of(name).1, args[1].expr->Str_0)
            &&& t[0].0 != t[1].0
        }),
{
    lemma_pair_distinct(name);
}

/// Law: a call whose arguments carry no literal data at all (no object
/// literal, no literal string: identifiers, computed expressions) is never
/// rewritten, whatever its callee.
pub proof fn lemma_dynamic_args_unchanged(cfg: Seq<char>, callee: ExprV, args: Seq<ArgV>)
    requires
        forall|i: int|
            0 <= i < args.len() ==> !((#[trigger] args[i].expr) is Str) && !(args[i].expr
                is Object),
    ensures
        transform_call_spec(cfg, callee, args) is None,
{
}

/// Law: a call whose callee is not a plain identifier bearing one of the
/// recognized names is never rewritten. In particular a call to the
/// configured runtime function is left alone whenever that name is not
/// itself a recognized name.
pub proof fn lemma_unrecognized_unchanged(cfg: Seq<char>, callee: ExprV, args: Seq<ArgV>)
    requires
        callee is Ident ==> !recognized(callee->Ident_0),
    ensures
        transform_call_spec(cfg, callee, args) is None,
{
}

/// A table's emitted object literal is a fixed point of the transform: its
/// properties are identifier-keyed string literals, which the pass leaves
/// alone.
proof fn lemma_table_props_fixed(cfg: Seq<char>, t: Seq<(Seq<char>, Seq<char>)>)
    ensures
        transform_props_spec(cfg, table_props(t)) == table_props(t),
{
    lemma_transform_props(cfg, table_props(t));
    assert forall|i: int| 0 <= i < t.len() implies transform_props_spec(cfg, table_props(t))[i]
        == table_props(t)[i] by {
        assert(table_props(t)[i] == PropV::KeyValue(PropKeyV::Ident(t[i].0), ExprV::Str(t[i].1)));
    }
    assert(transform_props_spec(cfg, table_props(t)) =~= table_props(t));
}

/// Law: the transform is idempotent. As long as the configured runtime
/// function name is not itself a recognized name, a second pass over an
/// already-rewritten tree changes nothing.
pub proof fn lemma_transform_idempotent(cfg: Seq<char>, e: ExprV)
    requires
        !recognized(cfg),
    ensures
        transform_expr_spec(cfg, transform_expr_spec(cfg, e)) == transform_expr_spec(cfg, e),
    decreases e,
{
    match e {
        ExprV::Str(_) => {},
        ExprV::Ident(_) => {},
        ExprV::Object(props) => {
            lemma_idem_props(cfg, props);
        },
        ExprV::Call(callee, args) => {
            lemma_transform_idempotent(cfg, *callee);
            lemma_idem_args(cfg, args);
            let c1 = transform_expr_spec(cfg, *callee);
            let a1 = transform_args_spec(cfg, args);
            match transform_call_spec(cfg, c1, a1) {
                Some(r) => {
                    let t = match c1 {
                        ExprV::Ident(name) => extraction(name, a1).unwrap().0,
                        _ => Seq::empty(),
                    };
                    assert(r is Call);
                    assert(*r->Call_0 == ExprV::Ident(cfg));
                    let rargs = r->Call_1;
                    lemma_transform_args(cfg, rargs);
                    lemma_table_props_fixed(cfg, t);
                    assert forall|i: int| 0 <= i < rargs.len() implies transform_args_spec(
                        cfg,
                        rargs,
                    )[i] == rargs[i] by {
                        if i == 0 {
                            assert(rargs[0].expr is Str);
                        } else if i == 1 {
                            assert(rargs[1].expr == ExprV::Object(table_props(t)));
                        } else {
                            let vi = match c1 {
                                ExprV::Ident(name) => extraction(name, a1).unwrap().1,
                                _ => None,
                            };
                            let j = vi.unwrap();
                            assert(rargs[i] == a1[j]);
                            lemma_transform_args(cfg, args);
                            assert(a1[j] == transform_arg_spec(cfg, args[j]));
                            lemma_transform_idempotent(cfg, args[j].expr);
                        }
                    }
                    assert(transform_args_spec(cfg, rargs) =~= rargs);
                    assert(transform_expr_spec(cfg, ExprV::Ident(cfg)) == ExprV::Ident(cfg));
                    lemma_unrecognized_unchanged(cfg, ExprV::Ident(cfg), rargs);
                    assert(transform_expr_spec(cfg, r) == ExprV::Call(
                        Box::new(ExprV::Ident(cfg)),
                        rargs,
                    ));
                    assert(transform_expr_spec(cfg, r) == r);
                },
                None => {
                    assert(transform_expr_spec(cfg, e) == ExprV::Call(Box::new(c1), a1));
                },
            }
        },
        ExprV::Opaque(_, children) => {
            lemma_idem_exprs(cfg, children);
        },
    }
}

/// Idempotence, elementwise over a sequence of expressions.
proof fn lemma_idem_exprs(cfg: Seq<char>, v: Seq<ExprV>)
    requires
        !recognized(cfg),
    ensures
        transform_exprs_spec(cfg, transform_exprs_spec(cfg, v)) == transform_exprs_spec(cfg, v),
    decreases v,
{
    let v1 = transform_exprs_spec(cfg, v);
    lemma_transform_exprs(cfg, v);
    lemma_transform_exprs(cfg, v1);
    assert forall|i: int| 0 <= i < v1.len() implies transform_exprs_spec(cfg, v1)[i] == v1[i] by {
        assert(v1[i] == transform_expr_spec(cfg, v[i]));
        lemma_transform_idempotent(cfg, v[i]);
    }
    assert(transform_exprs_spec(cfg, v1) =~= v1);
}

/// Idempotence, elementwise over a sequence of properties.
proof fn lemma_idem_props(cfg: Seq<char>, v: Seq<PropV>)
    requires
        !recognized(cfg),
    ensures
        transform_props_spec(cfg, transform_props_spec(cfg, v)) == transform_props_spec(cfg, v),
    decreases v,
{
    let v1 = transform_props_spec(cfg, v);
    lemma_transform_props(cfg, v);
    lemma_transform_props(cfg, v1);
    assert forall|i: int| 0 <= i < v1.len() implies transform_props_spec(cfg, v1)[i] == v1[i] by {
        assert(v1[i] == transform_prop_spec(cfg, v[i]));
        match v[i] {
            PropV::KeyValue(_, value) => {
                lemma_transform_idempotent(cfg, value);
            },
            PropV::Opaque(_, children) => {
                lemma_idem_exprs(cfg, children);
            },
        }
    }
    assert(transform_props_spec(cfg, v1) =~= v1);
}

/// Idempotence, elementwise over a sequence of arguments.
proof fn lemma_idem_args(cfg: Seq<char>, v: Seq<ArgV>)
    requires
        !recognized(cfg),
    ensures
        transform_args_spec(cfg, transform_args_spec(cfg, v)) == transform_args_spec(cfg, v),
    decreases v,
{
    let v1 = transform_args_spec(cfg, v);
    lemma_transform_args(cfg, v);
    lemma_transform_args(cfg, v1);
    assert forall|i: int| 0 <= i < v1.len() implies transform_args_spec(cfg, v1)[i] == v1[i] by {
        assert(v1[i] == transform_arg_spec(cfg, v[i]));
        lemma_transform_idempotent(cfg, v[i].expr);
    }
    assert(transform_args_spec(cfg, v1) =~= v1);
}

} // verus!
