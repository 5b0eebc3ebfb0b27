//! The schema export: a deterministic, human-readable rendering of a space's
//! full dimension map, nested sub-spaces included. Meant for logs and
//! inspection; there is no operation that parses it back.

use crate::dimension::Dimension;
use crate::model::{dim_view, entries_view, lemma_entries_view, DimView};
use crate::space::Space;
use crate::text::{dec_digits, dec_digits_signed, push_dec, push_dec_signed};
use vstd::prelude::*;
use vstd::string::StringExecFns;

verus! {

/// The rendering of one dimension view.
pub open spec fn dim_schema(v: DimView) -> Seq<char>
    decreases v, 0int,
{
    match v {
        DimView::Integer { loc } => "Integer("@ + dec_digits_signed(loc) + ")"@,
        DimView::Real { bits } => "Real(bits="@ + dec_digits(bits as nat) + ")"@,
        DimView::Space(sv) => "Space(\""@ + sv.name + "\", "@ + schema_of(sv.entries) + ")"@,
    }
}

/// The rendering of one entry: its quoted key, then its dimension.
pub open spec fn entry_schema(e: (Seq<char>, DimView)) -> Seq<char>
    decreases e, 1int,
{
    "\""@ + e.0 + "\": "@ + dim_schema(e.1)
}

/// The rendering of the first `i` entries of a dimension list, separated by
/// commas, in order.
pub open spec fn entries_schema_prefix(s: Seq<(Seq<char>, DimView)>, i: int) -> Seq<char>
    decreases s, i + 1,
{
    if i <= 0 || i > s.len() {
        Seq::empty()
    } else {
        entries_schema_prefix(s, i - 1) + (if i > 1 {
            ", "@
        } else {
            Seq::<char>::empty()
        }) + entry_schema(s[i - 1])
    }
}

/// The full schema string of a dimension list: its entries, braced.
pub open spec fn schema_of(s: Seq<(Seq<char>, DimView)>) -> Seq<char>
    decreases s, s.len() + 2,
{
    "{"@ + entries_schema_prefix(s, s.len() as int) + "}"@
}

fn push_dim_schema(out: &mut String, d: &Dimension)
    ensures
        final(out)@ == old(out)@ + dim_schema(dim_view(*d)),
    decreases *d, 0int,
{
    match d {
        Dimension::Integer { loc } => {
            out.append("Integer(");
            push_dec_signed(out, *loc);
            out.append(")");
            proof {
                assert(out@ =~= old(out)@ + dim_schema(dim_view(*d)));
            }
        },
        Dimension::Real { bits } => {
            out.append("Real(bits=");
            push_dec(out, *bits);
            out.append(")");
            proof {
                assert(out@ =~= old(out)@ + dim_schema(dim_view(*d)));
            }
        },
        Dimension::Space(sp) => {
            out.append("Space(\"");
            out.append(sp.name.as_str());
            out.append("\", ");
            out.append("{");
            push_entries_schema(out, &sp.dims);
            out.append("}");
            out.append(")");
            proof {
                lemma_entries_view(sp.dims@);
                assert(out@ =~= old(out)@ + dim_schema(dim_view(*d)));
            }
        },
    }
}

fn push_entries_schema(out: &mut String, v: &Vec<(String, Dimension)>)
    ensures
        final(out)@ == old(out)@ + entries_schema_prefix(entries_view(v@), v@.len() as int),
    decreases v@, 1int,
{
    proof {
        lemma_entries_view(v@);
    }
    let ghost ev = entries_view(v@);
    let mut j: usize = 0;
    while j < v.len()
        invariant
            j <= v@.len(),
            ev == entries_view(v@),
            ev.len() == v@.len(),
            forall|m: int|
                0 <= m < v@.len() ==> #[trigger] ev[m] == (v@[m].0@, dim_view(v@[m].1)),
            out@ == old(out)@ + entries_schema_prefix(ev, j as int),
        decreases v@.len() - j,
    {
        if j > 0 {
            out.append(", ");
        }
        out.append("\"");
        out.append(v[j].0.as_str());
        out.append("\": ");
        push_dim_schema(out, &v[j].1);
        j += 1;
        proof {
            assert(entries_schema_prefix(ev, j as int) == entries_schema_prefix(ev, j as int - 1)
                + (if j as int > 1 {
                ", "@
            } else {
                Seq::<char>::empty()
            }) + entry_schema(ev[j as int - 1]));
            assert(entry_schema(ev[j as int - 1]) == "\""@ + ev[j as int - 1].0 + "\": "@
                + dim_schema(ev[j as int - 1].1));
            assert(out@ =~= old(out)@ + entries_schema_prefix(ev, j as int));
        }
    }
}

impl Space {
    /// A deterministic, human-readable rendering of the full dimension map,
    /// nested sub-spaces rendered recursively.
    pub fn unroll_schema(&self) -> (r: String)
        ensures
            r@ == schema_of(entries_view(self.dims@)),
    {
        let mut out = String::new();
        out.append("{");
        push_entries_schema(&mut out, &self.dims);
        out.append("}");
        proof {
            lemma_entries_view(self.dims@);
            assert(out@ =~= schema_of(entries_view(self.dims@)));
        }
        out
    }
}

} // verus!
