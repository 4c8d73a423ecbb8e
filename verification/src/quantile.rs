//! Quantile configuration for histogram summaries. A quantile is a value
//! in [0, 1], held here in thousandths (permille) so the whole model stays
//! in integer arithmetic, paired with its conventional display label
//! (`0.5` renders as `"0.5"`, `1.0` as `"1"`: trailing zeros dropped).

use vstd::prelude::*;
use vstd::string::StringExecFns;

use crate::numfmt::{digit_char, digit_str};

verus! {

/// A configuration fault: a requested quantile lay outside [0, 1].
#[derive(Clone, Copy, Debug, PartialEq, Eq, Structural)]
pub enum QuantileError {
    /// A requested quantile was above one (more than 1000 permille).
    OutOfRange,
}

/// The display label of a quantile given in permille: the decimal form
/// with trailing zeros dropped (`1000` is `"1"`, `500` is `"0.5"`,
/// `999` is `"0.999"`, `0` is `"0"`).
pub open spec fn quantile_label(q: nat) -> Seq<char> {
    if q >= 1000 {
        seq!['1']
    } else if q == 0 {
        seq!['0']
    } else {
        let d1 = q / 100;
        let d2 = (q / 10) % 10;
        let d3 = q % 10;
        if d3 == 0 && d2 == 0 {
            seq!['0', '.', digit_char(d1)]
        } else if d3 == 0 {
            seq!['0', '.', digit_char(d1), digit_char(d2)]
        } else {
            seq!['0', '.', digit_char(d1), digit_char(d2), digit_char(d3)]
        }
    }
}

/// A validated quantile: a permille value in 0..=1000 and its precomputed
/// display label.
#[derive(Clone, Debug)]
pub struct Quantile {
    /// The quantile in thousandths: 0 is the minimum, 1000 the maximum.
    pub permille: u16,
    /// The display label used as the `quantile="..."` value.
    pub label: String,
}

impl Quantile {
    /// A valid quantile lies in [0, 1] and carries its canonical label.
    pub open spec fn wf(self) -> bool {
        self.permille <= 1000 && self.label@ == quantile_label(self.permille as nat)
    }

    /// Validates a permille value into a `Quantile`; values above 1000
    /// are a configuration fault reported to the caller.
    pub fn from_permille(q: u16) -> (r: Result<Quantile, QuantileError>)
        ensures
            r is Ok <==> q <= 1000,
            r matches Ok(quant) ==> quant.permille == q && quant.wf(),
            r is Err ==> r->Err_0 == QuantileError::OutOfRange,
    {
        if q > 1000 {
            Err(QuantileError::OutOfRange)
        } else {
            Ok(Quantile { permille: q, label: quantile_label_string(q) })
        }
    }

    /// The quantile in thousandths.
    pub fn value_permille(&self) -> (r: u16)
        ensures
            r == self.permille,
    {
        self.permille
    }
}

/// Renders the canonical display label of a quantile given in permille.
pub fn quantile_label_string(q: u16) -> (r: String)
    requires
        q <= 1000,
    ensures
        r@ == quantile_label(q as nat),
{
    proof {
        reveal_strlit("1");
        reveal_strlit("0");
        reveal_strlit("0.");
    }
    if q == 1000 {
        let r = "1".to_owned();
        proof {
            assert(r@ =~= quantile_label(q as nat));
        }
        r
    } else if q == 0 {
        let r = "0".to_owned();
        proof {
            assert(r@ =~= quantile_label(q as nat));
        }
        r
    } else {
        let d1: u64 = (q / 100) as u64;
        let d2: u64 = ((q / 10) % 10) as u64;
        let d3: u64 = (q % 10) as u64;
        let mut s = String::from_str("0.");
        s.append(digit_str(d1));
        if d2 != 0 || d3 != 0 {
            s.append(digit_str(d2));
        }
        if d3 != 0 {
            s.append(digit_str(d3));
        }
        proof {
            assert(s@ =~= quantile_label(q as nat));
        }
        s
    }
}

/// The permille values of a quantile sequence, in order.
pub open spec fn permilles_of(s: Seq<Quantile>) -> Seq<u16> {
    s.map_values(|q: Quantile| q.permille)
}

/// Every quantile in the sequence is valid.
pub open spec fn quantiles_wf(s: Seq<Quantile>) -> bool {
    forall|i: int| 0 <= i < s.len() ==> (#[trigger] s[i]).wf()
}

/// Validates a list of requested quantiles, in permille. Order is kept and
/// duplicates are kept: the output matches the input one for one. Any value
/// above 1000 is rejected as a configuration fault.
pub fn parse_quantiles(raw: &Vec<u16>) -> (r: Result<Vec<Quantile>, QuantileError>)
    ensures
        r is Ok <==> (forall|i: int| 0 <= i < raw@.len() ==> raw@[i] <= 1000),
        r matches Ok(qs) ==> {
            &&& qs@.len() == raw@.len()
            &&& forall|i: int| 0 <= i < qs@.len() ==> (#[trigger] qs@[i]).permille == raw@[i]
            &&& quantiles_wf(qs@)
        },
        r is Err ==> r->Err_0 == QuantileError::OutOfRange,
{
    let mut out: Vec<Quantile> = Vec::new();
    let n = raw.len();
    let mut i: usize = 0;
    while i < n
        invariant
            n == raw@.len(),
            i <= n,
            out@.len() == i,
            forall|j: int| 0 <= j < i ==> raw@[j] <= 1000,
            forall|j: int| 0 <= j < i ==> (#[trigger] out@[j]).permille == raw@[j],
            quantiles_wf(out@),
        decreases n - i,
    {
        let q = raw[i];
        match Quantile::from_permille(q) {
            Ok(quant) => {
                out.push(quant);
            },
            Err(e) => {
                return Err(e);
            },
        }
        i = i + 1;
    }
    Ok(out)
}

/// The default quantile set, in permille: 0, 0.5, 0.9, 0.95, 0.99,
/// 0.999 and 1.
pub open spec fn default_permilles() -> Seq<u16> {
    seq![0u16, 500u16, 900u16, 950u16, 990u16, 999u16, 1000u16]
}

/// Builds the default quantile set: 0.0, 0.5, 0.9, 0.95, 0.99, 0.999, 1.0.
pub fn default_quantiles() -> (r: Vec<Quantile>)
    ensures
        permilles_of(r@) == default_permilles(),
        quantiles_wf(r@),
{
    let raw: Vec<u16> = vec![0, 500, 900, 950, 990, 999, 1000];
    proof {
        assert(raw@ =~= default_permilles());
    }
    match parse_quantiles(&raw) {
        Ok(qs) => {
            proof {
                assert(permilles_of(qs@) =~= default_permilles());
            }
            qs
        },
        Err(_) => {
            // Unreachable: every default permille is at most 1000.
            proof {
                assert(raw@[0] <= 1000);
                assert(false);
            }
            Vec::new()
        },
    }
}

} // verus!
