//! Text rendering for the Prometheus exposition format: metric-name
//! sanitizing (dots become underscores), label blocks, and the two-line
//! TYPE/value blocks that counters and gauges append.

use vstd::prelude::*;
use vstd::string::{StrSliceExecFns, StringExecFns};

use crate::key::{Key, KeyView, Label};

verus! {

/// Prometheus metric names may not hold dots: each becomes an underscore.
pub open spec fn sanitize_char(c: char) -> char {
    if c == '.' {
        '_'
    } else {
        c
    }
}

/// The sanitized form of a metric name.
pub open spec fn sanitize(name: Seq<char>) -> Seq<char> {
    name.map_values(|c: char| sanitize_char(c))
}

/// Replaces every dot in a metric name with an underscore.
pub fn sanitize_name(name: &str) -> (r: String)
    ensures
        r@ == sanitize(name@),
{
    proof {
        reveal_strlit("_");
    }
    let n = name.unicode_len();
    let mut out = String::new();
    let mut i: usize = 0;
    while i < n
        invariant
            n == name@.len(),
            i <= n,
            out@ == sanitize(name@.take(i as int)),
        decreases n - i,
    {
        let c = name.get_char(i);
        if c == '.' {
            proof {
                reveal_strlit("_");
            }
            out.append("_");
        } else {
            let piece = name.substring_char(i, i + 1);
            out.append(piece);
        }
        proof {
            assert(name@.subrange(i as int, i + 1) =~= seq![name@[i as int]]);
            assert(sanitize(name@.take(i + 1)) =~= sanitize(name@.take(i as int)) + seq![
                sanitize_char(name@[i as int]),
            ]);
            assert(out@ =~= sanitize(name@.take(i + 1)));
        }
        i = i + 1;
    }
    proof {
        assert(name@.take(n as int) =~= name@);
    }
    out
}

/// The wire form of one label: `key="value"`.
pub open spec fn label_str(l: (Seq<char>, Seq<char>)) -> Seq<char> {
    l.0 + "=\""@ + l.1 + "\""@
}

/// The wire forms of a label sequence, in order.
pub open spec fn label_strs(ls: Seq<(Seq<char>, Seq<char>)>) -> Seq<Seq<char>> {
    ls.map_values(|l: (Seq<char>, Seq<char>)| label_str(l))
}

/// Renders one label as `key="value"`.
pub fn render_label(l: &Label) -> (r: String)
    ensures
        r@ == label_str(l@),
{
    proof {
        reveal_strlit("=\"");
        reveal_strlit("\"");
    }
    let mut out = l.0.clone();
    out.append("=\"");
    out.append(l.1.as_str());
    out.append("\"");
    out
}

/// Splits a key into its sanitized metric name and its rendered labels.
pub fn key_to_parts(key: &Key) -> (r: (String, Vec<String>))
    ensures
        r.0@ == sanitize(key@.name),
        r.1.deep_view() == label_strs(key@.label_seq()),
{
    let name = sanitize_name(key.name.as_str());
    let labels: Vec<String> = match key.labels.as_ref() {
        Option::None => {
            let empty: Vec<String> = Vec::new();
            proof {
                assert(empty.deep_view() =~= label_strs(key@.label_seq()));
            }
            empty
        },
        Option::Some(ls) => {
            let mut out: Vec<String> = Vec::new();
            let n = ls.len();
            let mut i: usize = 0;
            while i < n
                invariant
                    n == ls@.len(),
                    i <= n,
                    out.deep_view() =~= label_strs(ls.deep_view().take(i as int)),
                decreases n - i,
            {
                let ghost prev = out.deep_view();
                let rendered = render_label(&ls[i]);
                out.push(rendered);
                proof {
                    let lv = ls.deep_view();
                    assert(lv[i as int] == ls@[i as int]@);
                    assert(out.deep_view() =~= prev.push(rendered@));
                    assert(label_strs(lv.take(i + 1)) =~= label_strs(lv.take(i as int)).push(
                        label_str(lv[i as int]),
                    ));
                    assert(out.deep_view() =~= label_strs(lv.take(i + 1)));
                }
                i = i + 1;
            }
            proof {
                assert(ls.deep_view().take(n as int) =~= ls.deep_view());
                assert(out.deep_view() =~= label_strs(key@.label_seq()));
            }
            out
        },
    };
    (name, labels)
}

/// Rendered labels joined by commas.
pub open spec fn joined_comma(ls: Seq<Seq<char>>) -> Seq<char>
    decreases ls.len(),
{
    if ls.len() == 0 {
        Seq::empty()
    } else if ls.len() == 1 {
        ls[0]
    } else {
        joined_comma(ls.drop_last()) + ","@ + ls.last()
    }
}

/// A metric name followed by its label block, or the bare name when there
/// are no labels.
pub open spec fn labeled_name(name: Seq<char>, ls: Seq<Seq<char>>) -> Seq<char> {
    if ls.len() == 0 {
        name
    } else {
        name + "{"@ + joined_comma(ls) + "}"@
    }
}

/// Renders `name{l1,l2,...}`, or the bare name when no labels are present.
pub fn render_labeled_name(name: &str, labels: &Vec<String>) -> (r: String)
    ensures
        r@ == labeled_name(name@, labels.deep_view()),
{
    proof {
        reveal_strlit("{");
        reveal_strlit("}");
        reveal_strlit(",");
    }
    let mut out = name.to_owned();
    if labels.len() == 0 {
        return out;
    }
    out.append("{");
    let n = labels.len();
    let mut i: usize = 0;
    while i < n
        invariant
            n == labels@.len(),
            0 < n,
            i <= n,
            out@ == name@ + "{"@ + joined_comma(labels.deep_view().take(i as int)),
        decreases n - i,
    {
        if i > 0 {
            out.append(",");
        }
        out.append(labels[i].as_str());
        proof {
            let lv = labels.deep_view();
            assert(lv.take(i + 1).drop_last() =~= lv.take(i as int));
            assert(lv.take(i + 1).last() == lv[i as int]);
            assert(out@ =~= name@ + "{"@ + joined_comma(lv.take(i + 1)));
        }
        i = i + 1;
    }
    out.append("}");
    proof {
        assert(labels.deep_view().take(n as int) =~= labels.deep_view());
        assert(out@ =~= labeled_name(name@, labels.deep_view()));
    }
    out
}

/// The two-line block a counter or gauge appends: a TYPE declaration and
/// one sample line.
pub open spec fn metric_block(k: KeyView, kind: Seq<char>, value_text: Seq<char>) -> Seq<char> {
    "\n# TYPE "@ + sanitize(k.name) + " "@ + kind + "\n"@ + labeled_name(
        sanitize(k.name),
        label_strs(k.label_seq()),
    ) + " "@ + value_text + "\n"@
}

/// Appends `metric_block` for the given key, kind and rendered value.
pub fn append_metric_block(out: &mut String, key: &Key, kind: &str, value_text: &str)
    ensures
        final(out)@ == old(out)@ + metric_block(key@, kind@, value_text@),
{
    proof {
        reveal_strlit("\n# TYPE ");
        reveal_strlit(" ");
        reveal_strlit("\n");
    }
    let parts = key_to_parts(key);
    out.append("\n# TYPE ");
    out.append(parts.0.as_str());
    out.append(" ");
    out.append(kind);
    out.append("\n");
    let full_name = render_labeled_name(parts.0.as_str(), &parts.1);
    out.append(full_name.as_str());
    out.append(" ");
    out.append(value_text);
    out.append("\n");
    proof {
        assert(out@ =~= old(out)@ + metric_block(key@, kind@, value_text@));
    }
}

} // verus!
