//! On-demand variable expansion: `$name` tokens in a value are replaced
//! by the table's value for `name`, whole tokens only, left to right,
//! without rescanning replacement text. Entries keep their raw value;
//! expansion never writes anything back.

use vstd::prelude::*;
use vstd::string::*;
use crate::model::{VarDef, VarModel, var_lookup};
use crate::text::{ident_len, ident_run_str, lemma_ident_len, str_eq};

verus! {

/// `s` with every whole `$name` token that the table defines replaced by
/// its value; `$` runs that name no definition or no identifier follow
/// stay as written.
pub open spec fn expand_spec(vars: Seq<VarModel>, s: Seq<char>) -> Seq<char>
    decreases s.len(),
    via expand_spec_decreases
{
    if s.len() == 0 {
        s
    } else if s[0] == '$' && ident_len(s.skip(1)) > 0 && var_lookup(
        vars,
        s.subrange(1, 1 + ident_len(s.skip(1)) as int),
    ) is Some {
        var_lookup(vars, s.subrange(1, 1 + ident_len(s.skip(1)) as int))->Some_0 + expand_spec(
            vars,
            s.skip(1 + ident_len(s.skip(1)) as int),
        )
    } else {
        seq![s[0]] + expand_spec(vars, s.drop_first())
    }
}

#[via_fn]
proof fn expand_spec_decreases(vars: Seq<VarModel>, s: Seq<char>) {
    if s.len() > 0 {
        lemma_ident_len(s.skip(1));
    }
}

/// The value of the last definition of `name`, or `None` when the table
/// has none.
pub fn lookup_var<'a>(vars: &'a Vec<VarDef>, name: &str) -> (r: Option<&'a String>)
    ensures
        match r {
            Some(v) => var_lookup(vars.deep_view(), name@) == Some(v@),
            None => var_lookup(vars.deep_view(), name@) is None,
        },
{
    let ghost vdv = vars.deep_view();
    let mut i: usize = vars.len();
    proof {
        assert(vdv.take(vars.len() as int) =~= vdv);
    }
    loop
        invariant
            0 <= i <= vars.len(),
            vdv == vars.deep_view(),
            var_lookup(vdv, name@) == var_lookup(vdv.take(i as int), name@),
        decreases i,
    {
        if i == 0 {
            return None;
        }
        i = i - 1;
        proof {
            assert(vdv.take(i + 1).last() == vdv[i as int]);
            assert(vdv.take(i + 1).drop_last() =~= vdv.take(i as int));
        }
        if str_eq(vars[i].name.as_str(), name) {
            return Some(&vars[i].value);
        }
    }
}

/// `input` with every whole `$name` token the table defines replaced by
/// its value, exactly as `expand_spec` describes; the input and the table
/// are read only.
pub fn expand(input: &str, vars: &Vec<VarDef>) -> (r: String)
    ensures
        r@ == expand_spec(vars.deep_view(), input@),
{
    let n = input.unicode_len();
    let mut out = String::new();
    let mut p: usize = 0;
    proof {
        assert(input@.skip(0) =~= input@);
    }
    while p < n
        invariant
            0 <= p <= n,
            n == input@.len(),
            expand_spec(vars.deep_view(), input@) == out@ + expand_spec(
                vars.deep_view(),
                input@.skip(p as int),
            ),
        decreases n - p,
    {
        let ghost rem = input@.skip(p as int);
        proof {
            assert(rem[0] == input@[p as int]);
            assert(rem.skip(1) =~= input@.skip(p + 1));
            assert(forall|k: int| 0 <= k < rem.skip(1).len() ==> rem.skip(1)[k] == input@[k + p + 1]);
        }
        let c = input.get_char(p);
        if c == '$' {
            let l = ident_run_str(input, p + 1);
            proof {
                crate::text::lemma_ident_len(input@.skip(p + 1));
                crate::text::lemma_ident_len_unique(rem.skip(1), l as int);
            }
            if l > 0 {
                let name = input.substring_char(p + 1, p + 1 + l);
                proof {
                    assert(rem.subrange(1, 1 + l) =~= input@.subrange(p + 1, p + 1 + l));
                }
                if let Some(v) = lookup_var(vars, name) {
                    out.append(v.as_str());
                    proof {
                        assert(rem.skip(1 + l) =~= input@.skip(p + 1 + l));
                    }
                    p = p + 1 + l;
                    continue;
                }
            }
        }
        let one = input.substring_char(p, p + 1);
        out.append(one);
        proof {
            assert(input@.subrange(p as int, p + 1) =~= seq![rem[0]]);
            assert(rem.drop_first() =~= input@.skip(p + 1));
        }
        p = p + 1;
    }
    proof {
        assert(input@.skip(n as int) =~= Seq::<char>::empty());
        assert(out@ + Seq::<char>::empty() =~= out@);
    }
    out
}

} // verus!
