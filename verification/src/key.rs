//! The metric identity model: a name plus an optional, ordered sequence of
//! key/value labels. A key addresses one time series; equality is
//! structural and label order is significant.

use vstd::prelude::*;
use vstd::string::StringExecFns;

verus! {

/// An owned string value; kept as a named alias so signatures read like the
/// data model they implement.
pub type ScopedString = String;

/// A key/value pair used to further describe a metric.
#[derive(Clone, Debug)]
pub struct Label(pub ScopedString, pub ScopedString);

impl View for Label {
    type V = (Seq<char>, Seq<char>);

    open spec fn view(&self) -> (Seq<char>, Seq<char>) {
        (self.0@, self.1@)
    }
}

impl DeepView for Label {
    type V = (Seq<char>, Seq<char>);

    open spec fn deep_view(&self) -> (Seq<char>, Seq<char>) {
        self.view()
    }
}

impl Label {
    /// Creates a `Label` from a key and value.
    pub fn from_parts(key: &str, value: &str) -> (r: Label)
        ensures
            r@ == (key@, value@),
    {
        Label(key.to_owned(), value.to_owned())
    }
}

impl PartialEq for Label {
    fn eq(&self, other: &Label) -> bool {
        self.0 == other.0 && self.1 == other.1
    }
}

impl vstd::std_specs::cmp::PartialEqSpecImpl for Label {
    open spec fn obeys_eq_spec() -> bool {
        true
    }

    open spec fn eq_spec(&self, other: &Label) -> bool {
        self@ == other@
    }
}

impl Eq for Label {

}

/// The mathematical value of a key: its name and, when labels were given,
/// their ordered sequence. A normalized key never carries an empty label
/// sequence: "no labels" is `None`.
pub ghost struct KeyView {
    pub name: Seq<char>,
    pub labels: Option<Seq<(Seq<char>, Seq<char>)>>,
}

impl KeyView {
    /// A normalized key: an empty label set is represented as `None`,
    /// never as an empty sequence.
    pub open spec fn wf(self) -> bool {
        match self.labels {
            Option::Some(ls) => ls.len() > 0,
            Option::None => true,
        }
    }

    /// The label sequence, empty when no labels are present.
    pub open spec fn label_seq(self) -> Seq<(Seq<char>, Seq<char>)> {
        match self.labels {
            Option::Some(ls) => ls,
            Option::None => Seq::empty(),
        }
    }
}

/// The key a name alone builds: no labels.
pub open spec fn key_from_name(name: Seq<char>) -> KeyView {
    KeyView { name, labels: Option::None }
}

/// The key a name and a label sequence build; an empty sequence
/// normalizes to the no-labels form.
pub open spec fn key_from_labels(name: Seq<char>, labels: Seq<(Seq<char>, Seq<char>)>) -> KeyView {
    if labels.len() == 0 {
        key_from_name(name)
    } else {
        KeyView { name, labels: Option::Some(labels) }
    }
}

/// A key built from a name and an empty label sequence is the key built
/// from the name alone: the two constructions are indistinguishable.
pub proof fn lemma_empty_labels_same_key(name: Seq<char>)
    ensures
        key_from_labels(name, Seq::empty()) == key_from_name(name),
{
}

/// Keys built from one name but different label sequences differ: label
/// order is significant for key equality.
pub proof fn lemma_label_order_distinguishes(
    name: Seq<char>,
    l1: Seq<(Seq<char>, Seq<char>)>,
    l2: Seq<(Seq<char>, Seq<char>)>,
)
    requires
        l1 != l2,
    ensures
        key_from_labels(name, l1) != key_from_labels(name, l2),
{
    if l1.len() == 0 && l2.len() == 0 {
        assert(l1 =~= l2);
    }
}

/// A metric key: a name, with an optional ordered label sequence.
#[derive(Clone, Debug)]
pub struct Key {
    pub name: ScopedString,
    pub labels: Option<Vec<Label>>,
}

impl View for Key {
    type V = KeyView;

    open spec fn view(&self) -> KeyView {
        KeyView { name: self.name@, labels: self.labels.deep_view() }
    }
}

impl Key {
    /// Creates a `Key` from a name.
    pub fn from_name(name: &str) -> (r: Key)
        ensures
            r@ == key_from_name(name@),
            r@.wf(),
    {
        Key { name: name.to_owned(), labels: Option::None }
    }

    /// Creates a `Key` from a name and a vector of `Label`s. An empty
    /// vector builds the same key as [`Key::from_name`].
    pub fn from_name_and_labels(name: &str, labels: Vec<Label>) -> (r: Key)
        ensures
            r@ == key_from_labels(name@, labels.deep_view()),
            r@.wf(),
    {
        if labels.len() == 0 {
            Key { name: name.to_owned(), labels: Option::None }
        } else {
            Key { name: name.to_owned(), labels: Option::Some(labels) }
        }
    }

    /// Name of this key.
    pub fn name(&self) -> (r: ScopedString)
        ensures
            r@ == self@.name,
    {
        self.name.clone()
    }

    /// Labels of this key, if any were set.
    pub fn labels(&self) -> (r: Option<&Vec<Label>>)
        ensures
            r is Some <==> self@.labels is Some,
            r is Some ==> self@.labels == Option::Some(r->0.deep_view()),
    {
        self.labels.as_ref()
    }

    /// Maps the name of this `Key` to a new name; labels are carried over
    /// unchanged.
    pub fn map_name<F: FnOnce(ScopedString) -> ScopedString>(self, f: F) -> (r: Key)
        requires
            f.requires((self.name,)),
        ensures
            r@.labels == self@.labels,
            f.ensures((self.name,), r.name),
    {
        let new_name = f(self.name);
        Key { name: new_name, labels: self.labels }
    }
}

impl PartialEq for Key {
    fn eq(&self, other: &Key) -> bool {
        if !(self.name == other.name) {
            return false;
        }
        match (self.labels.as_ref(), other.labels.as_ref()) {
            (Option::None, Option::None) => true,
            (Option::Some(a), Option::Some(b)) => labels_eq(a, b),
            _ => false,
        }
    }
}

impl vstd::std_specs::cmp::PartialEqSpecImpl for Key {
    open spec fn obeys_eq_spec() -> bool {
        true
    }

    open spec fn eq_spec(&self, other: &Key) -> bool {
        self@ == other@
    }
}

impl Eq for Key {

}

/// Element-wise comparison of two label vectors.
fn labels_eq(a: &Vec<Label>, b: &Vec<Label>) -> (r: bool)
    ensures
        r == (a.deep_view() == b.deep_view()),
{
    if a.len() != b.len() {
        proof {
            assert(a.deep_view().len() != b.deep_view().len());
        }
        return false;
    }
    let n = a.len();
    let mut i: usize = 0;
    while i < n
        invariant
            n == a.len() == b.len(),
            i <= n,
            forall|j: int| 0 <= j < i ==> a.deep_view()[j] == b.deep_view()[j],
        decreases n - i,
    {
        let la = &a[i];
        let lb = &b[i];
        if !(la.0 == lb.0 && la.1 == lb.1) {
            proof {
                assert(a.deep_view()[i as int] != b.deep_view()[i as int]);
            }
            return false;
        }
        i = i + 1;
    }
    proof {
        assert(a.deep_view() =~= b.deep_view());
    }
    true
}

/// A value that can be converted into a `Key`.
pub trait IntoKey {
    /// The key this value denotes.
    spec fn key_of(&self) -> KeyView;

    /// Consumes this value, turning it into a `Key`.
    fn into_key(self) -> (r: Key)
        ensures
            r@ == self.key_of(),
    ;
}

impl IntoKey for Key {
    open spec fn key_of(&self) -> KeyView {
        self@
    }

    fn into_key(self) -> Key {
        self
    }
}

impl IntoKey for String {
    open spec fn key_of(&self) -> KeyView {
        key_from_name(self@)
    }

    fn into_key(self) -> Key {
        Key::from_name(self.as_str())
    }
}

impl IntoKey for &'static str {
    open spec fn key_of(&self) -> KeyView {
        key_from_name((*self)@)
    }

    fn into_key(self) -> Key {
        Key::from_name(self)
    }
}

impl IntoKey for (String, Vec<Label>) {
    open spec fn key_of(&self) -> KeyView {
        key_from_labels(self.0@, self.1.deep_view())
    }

    fn into_key(self) -> Key {
        Key::from_name_and_labels(self.0.as_str(), self.1)
    }
}

impl IntoKey for (&'static str, Vec<Label>) {
    open spec fn key_of(&self) -> KeyView {
        key_from_labels((self.0)@, self.1.deep_view())
    }

    fn into_key(self) -> Key {
        Key::from_name_and_labels(self.0, self.1)
    }
}

/// A value that can be converted to a vector of `Label`s.
pub trait IntoLabels {
    /// The label sequence this value denotes.
    spec fn labels_of(&self) -> Seq<(Seq<char>, Seq<char>)>;

    /// Consumes this value, turning it into a vector of `Label`s.
    fn into_labels(self) -> (r: Vec<Label>)
        ensures
            r.deep_view() == self.labels_of(),
    ;
}

impl IntoLabels for Vec<Label> {
    open spec fn labels_of(&self) -> Seq<(Seq<char>, Seq<char>)> {
        self.deep_view()
    }

    fn into_labels(self) -> Vec<Label> {
        self
    }
}

impl IntoLabels for Vec<(String, String)> {
    open spec fn labels_of(&self) -> Seq<(Seq<char>, Seq<char>)> {
        self.deep_view()
    }

    fn into_labels(self) -> (r: Vec<Label>) {
        let mut out: Vec<Label> = Vec::new();
        let n = self.len();
        let mut i: usize = 0;
        while i < n
            invariant
                n == self@.len(),
                i <= n,
                out.deep_view() =~= self.deep_view().take(i as int),
            decreases n - i,
        {
            let ghost prev = out.deep_view();
            let pair = &self[i];
            let l = Label::from_parts(pair.0.as_str(), pair.1.as_str());
            out.push(l);
            proof {
                assert(out.deep_view() =~= prev.push(l@));
                assert(out.deep_view() =~= self.deep_view().take(i + 1));
            }
            i = i + 1;
        }
        proof {
            assert(self.deep_view().take(n as int) =~= self.deep_view());
        }
        out
    }
}

/// The diagnostic rendering of one label inside `Key(...)`.
pub open spec fn label_display(l: (Seq<char>, Seq<char>)) -> Seq<char> {
    l.0 + " = "@ + l.1
}

/// The diagnostic rendering of a label sequence: entries joined by `", "`.
pub open spec fn labels_display(ls: Seq<(Seq<char>, Seq<char>)>) -> Seq<char>
    decreases ls.len(),
{
    if ls.len() == 0 {
        Seq::empty()
    } else if ls.len() == 1 {
        label_display(ls[0])
    } else {
        labels_display(ls.drop_last()) + ", "@ + label_display(ls.last())
    }
}

/// The diagnostic rendering of a key: `Key(name)` or
/// `Key(name, [k1 = v1, k2 = v2])`.
pub open spec fn key_display(k: KeyView) -> Seq<char> {
    match k.labels {
        Option::None => "Key("@ + k.name + ")"@,
        Option::Some(ls) => "Key("@ + k.name + ", ["@ + labels_display(ls) + "])"@,
    }
}

impl Key {
    /// Renders the diagnostic form of this key, for human eyes rather than
    /// the wire format.
    pub fn display_string(&self) -> (r: String)
        ensures
            r@ == key_display(self@),
    {
        proof {
            reveal_strlit("Key(");
            reveal_strlit(")");
            reveal_strlit(", [");
            reveal_strlit("])");
            reveal_strlit(", ");
            reveal_strlit(" = ");
        }
        let mut out = String::from_str("Key(");
        out.append(self.name.as_str());
        match self.labels.as_ref() {
            Option::None => {
                out.append(")");
                proof {
                    assert(out@ =~= key_display(self@));
                }
                out
            },
            Option::Some(ls) => {
                out.append(", [");
                let n = ls.len();
                let mut i: usize = 0;
                while i < n
                    invariant
                        n == ls.len(),
                        i <= n,
                        out@ == "Key("@ + self@.name + ", ["@ + labels_display(
                            ls.deep_view().take(i as int),
                        ),
                        self@.labels == Option::Some(ls.deep_view()),
                    decreases n - i,
                {
                    if i > 0 {
                        out.append(", ");
                    }
                    let l = &ls[i];
                    out.append(l.0.as_str());
                    out.append(" = ");
                    out.append(l.1.as_str());
                    proof {
                        let lv = ls.deep_view();
                        assert(lv.take(i + 1).drop_last() =~= lv.take(i as int));
                        assert(lv.take(i + 1).last() == lv[i as int]);
                        assert(out@ =~= "Key("@ + self@.name + ", ["@ + labels_display(
                            lv.take(i + 1),
                        ));
                    }
                    i = i + 1;
                }
                out.append("])");
                proof {
                    assert(ls.deep_view().take(n as int) =~= ls.deep_view());
                    assert(out@ =~= key_display(self@));
                }
                out
            },
        }
    }
}

} // verus!
