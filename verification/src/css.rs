//! Small CSS helpers: serializing a selector block with its declarations,
//! and enumerating coprime screen-ratio pairs.

use vstd::prelude::*;
use vstd::string::StringExecFns;

verus! {

/// One CSS declaration: a property and its value.
pub struct Declaration {
    pub property: String,
    pub value: String,
}

/// A declaration's text: `property:value;`.
pub open spec fn spec_declaration(d: Declaration) -> Seq<char> {
    d.property@ + ":"@ + d.value@ + ";"@
}

/// The declarations' texts, concatenated in stored order.
pub open spec fn declarations_text(ds: Seq<Declaration>) -> Seq<char>
    decreases ds.len(),
{
    if ds.len() == 0 {
        Seq::empty()
    } else {
        declarations_text(ds.drop_last()) + spec_declaration(ds.last())
    }
}

impl Declaration {
    /// Serialize: `property:value;`.
    pub fn to_string(&self) -> (r: String)
        ensures
            r@ == self.property@ + ":"@ + self.value@ + ";"@,
    {
        let mut out = self.property.clone();
        out.append(":");
        out.append(self.value.as_str());
        out.append(";");
        out
    }
}

/// A CSS rule: a selector and its declarations.
pub struct Selector {
    pub selector: String,
    pub declarations: Vec<Declaration>,
}

impl Selector {
    /// Serialize: the selector, then the declarations between braces.
    pub fn to_string(&self) -> (r: String)
        ensures
            r@ == self.selector@ + "{"@ + declarations_text(self.declarations@) + "}"@,
    {
        let mut decls = String::new();
        let mut i: usize = 0;
        while i < self.declarations.len()
            invariant
                i <= self.declarations.len(),
                decls@ == declarations_text(self.declarations@.subrange(0, i as int)),
            decreases self.declarations.len() - i,
        {
            let ghost done = self.declarations@.subrange(0, i as int);
            let d = self.declarations[i].to_string();
            decls.append(d.as_str());
            proof {
                let grown = self.declarations@.subrange(0, i as int + 1);
                assert(grown.drop_last() =~= done);
                assert(grown.last() == self.declarations@[i as int]);
            }
            i = i + 1;
        }
        proof {
            assert(self.declarations@.subrange(0, self.declarations@.len() as int)
                =~= self.declarations@);
        }
        let mut out = self.selector.clone();
        out.append("{");
        out.append(decls.as_str());
        out.append("}");
        out
    }
}

/// The greatest common divisor, by Euclid's rule.
pub open spec fn spec_gcd(a: nat, b: nat) -> nat
    decreases b,
{
    if b == 0 {
        a
    } else {
        spec_gcd(b, a % b)
    }
}

/// The greatest common divisor of two machine integers.
pub fn gcd(a: usize, b: usize) -> (r: usize)
    ensures
        r as nat == spec_gcd(a as nat, b as nat),
{
    let mut x = a;
    let mut y = b;
    while y != 0
        invariant
            spec_gcd(x as nat, y as nat) == spec_gcd(a as nat, b as nat),
        decreases y,
    {
        let t = x % y;
        x = y;
        y = t;
    }
    x
}

/// A screen aspect ratio: a width count and a height count.
pub struct ScreenRatio(pub usize, pub usize);

/// The models of a sequence of ratios.
pub open spec fn ratios_view(rs: Seq<ScreenRatio>) -> Seq<(int, int)> {
    Seq::new(rs.len(), |i: int| (rs[i].0 as int, rs[i].1 as int))
}

/// The coprime pairs `(x, y)` with `1 <= y <= max`, in increasing `y`.
pub open spec fn coprime_row(x: int, max: int) -> Seq<(int, int)>
    decreases max,
{
    if max <= 0 {
        Seq::empty()
    } else {
        coprime_row(x, max - 1) + if spec_gcd(x as nat, max as nat) == 1 {
            seq![(x, max)]
        } else {
            Seq::empty()
        }
    }
}

/// The coprime pairs `(x, y)` with `1 <= x <= maxx` and `1 <= y <= max`,
/// row by row.
pub open spec fn coprime_table(maxx: int, max: int) -> Seq<(int, int)>
    decreases maxx,
{
    if maxx <= 0 {
        Seq::empty()
    } else {
        coprime_table(maxx - 1, max) + coprime_row(maxx, max)
    }
}

/// Enumerate the coprime ratio pairs up to `max`, row by row, each row in
/// increasing second component.
pub fn calc_coprimes(max: usize) -> (r: Vec<ScreenRatio>)
    requires
        max < usize::MAX,
    ensures
        ratios_view(r@) == coprime_table(max as int, max as int),
{
    let mut out: Vec<ScreenRatio> = Vec::new();
    let mut x: usize = 1;
    while x <= max
        invariant
            max < usize::MAX,
            1 <= x <= max + 1,
            ratios_view(out@) =~= coprime_table(x as int - 1, max as int),
        decreases max + 1 - x,
    {
        let mut y: usize = 1;
        while y <= max
            invariant
                max < usize::MAX,
                1 <= x <= max,
                1 <= y <= max + 1,
                ratios_view(out@) =~= coprime_table(x as int - 1, max as int) + coprime_row(
                    x as int,
                    y as int - 1,
                ),
            decreases max + 1 - y,
        {
            let ghost before = ratios_view(out@);
            if gcd(x, y) == 1 {
                out.push(ScreenRatio(x, y));
                proof {
                    assert(ratios_view(out@) =~= before.push((x as int, y as int)));
                }
            }
            proof {
                assert(ratios_view(out@) =~= coprime_table(x as int - 1, max as int)
                    + coprime_row(x as int, y as int));
            }
            y = y + 1;
        }
        proof {
            assert(ratios_view(out@) =~= coprime_table(x as int, max as int));
        }
        x = x + 1;
    }
    proof {
        assert(ratios_view(out@) =~= coprime_table(max as int, max as int));
    }
    out
}

} // verus!
