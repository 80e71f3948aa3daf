//! The identity of a time series and the total order that storage keeps
//! series in.

use vstd::prelude::*;
use vstd::utf8::*;

verus! {

/// How one value stands to another in a total order.
#[derive(Clone, Copy, Debug, PartialEq, Eq, Structural)]
pub enum Order {
    Less,
    Equal,
    Greater,
}

/// A label of a series: a name and its value.
#[derive(Debug, PartialEq, Eq)]
pub struct Label {
    pub name: String,
    pub value: String,
}

/// The mathematical content of a [`Label`].
pub struct LabelView {
    pub name: Seq<char>,
    pub value: Seq<char>,
}

impl View for Label {
    type V = LabelView;

    open spec fn view(&self) -> LabelView {
        LabelView { name: self.name@, value: self.value@ }
    }
}

/// The identity of a series: the metric's name and its labels, in the order
/// they were given. Two keys are the same series exactly when they agree on
/// both.
#[derive(Debug, PartialEq, Eq)]
pub struct MetricKey {
    pub name: String,
    pub labels: Vec<Label>,
}

/// The mathematical content of a [`MetricKey`].
pub struct MetricKeyView {
    pub name: Seq<char>,
    pub labels: Seq<LabelView>,
}

impl View for MetricKey {
    type V = MetricKeyView;

    open spec fn view(&self) -> MetricKeyView {
        MetricKeyView { name: self.name@, labels: label_views(self.labels@) }
    }
}

/// The contents of each label of `labels`, in order.
pub open spec fn label_views(labels: Seq<Label>) -> Seq<LabelView> {
    Seq::new(labels.len(), |i: int| labels[i]@)
}

/// Lexicographic order on byte strings: the first differing byte decides,
/// and a proper prefix comes first.
pub open spec fn bytes_lt(a: Seq<u8>, b: Seq<u8>) -> bool
    decreases a.len(),
{
    if b.len() == 0 {
        false
    } else if a.len() == 0 {
        true
    } else if a[0] != b[0] {
        a[0] < b[0]
    } else {
        bytes_lt(a.drop_first(), b.drop_first())
    }
}

/// Order on text: lexicographic on its UTF-8 encoding.
pub open spec fn text_lt(a: Seq<char>, b: Seq<char>) -> bool {
    bytes_lt(encode_utf8(a), encode_utf8(b))
}

/// Order on labels: by name, then by value.
pub open spec fn label_lt(a: LabelView, b: LabelView) -> bool {
    text_lt(a.name, b.name) || (a.name == b.name && text_lt(a.value, b.value))
}

/// Lexicographic order on label lists.
pub open spec fn labels_lt(a: Seq<LabelView>, b: Seq<LabelView>) -> bool
    decreases a.len(),
{
    if b.len() == 0 {
        false
    } else if a.len() == 0 {
        true
    } else if a[0] != b[0] {
        label_lt(a[0], b[0])
    } else {
        labels_lt(a.drop_first(), b.drop_first())
    }
}

/// The order series are kept in: by name, then by labels.
pub open spec fn key_lt(a: MetricKeyView, b: MetricKeyView) -> bool {
    text_lt(a.name, b.name) || (a.name == b.name && labels_lt(a.labels, b.labels))
}

/// What `order` says of `lt` and `eq`, where `gt` is `lt` with its
/// arguments swapped.
pub open spec fn order_is(order: Order, lt: bool, eq: bool, gt: bool) -> bool {
    &&& order is Less <==> lt
    &&& order is Equal <==> eq
    &&& order is Greater <==> gt
}

/// No byte string comes before itself.
proof fn lemma_bytes_irreflexive(a: Seq<u8>)
    ensures
        !bytes_lt(a, a),
    decreases a.len(),
{
    if a.len() > 0 {
        lemma_bytes_irreflexive(a.drop_first());
    }
}

/// The order on byte strings is transitive.
proof fn lemma_bytes_transitive(a: Seq<u8>, b: Seq<u8>, c: Seq<u8>)
    requires
        bytes_lt(a, b),
        bytes_lt(b, c),
    ensures
        bytes_lt(a, c),
    decreases a.len(),
{
    if a.len() > 0 && a[0] == b[0] && b[0] == c[0] {
        lemma_bytes_transitive(a.drop_first(), b.drop_first(), c.drop_first());
    }
}

/// Of two byte strings at most one comes before the other.
proof fn lemma_bytes_asymmetric(a: Seq<u8>, b: Seq<u8>)
    requires
        bytes_lt(a, b),
    ensures
        !bytes_lt(b, a),
        a != b,
{
    lemma_bytes_irreflexive(a);
    if bytes_lt(b, a) {
        lemma_bytes_transitive(a, b, a);
    }
}

/// Any two byte strings are ordered or the same.
proof fn lemma_bytes_total(a: Seq<u8>, b: Seq<u8>)
    ensures
        bytes_lt(a, b) || a == b || bytes_lt(b, a),
    decreases a.len(),
{
    if a.len() > 0 && b.len() > 0 && a[0] == b[0] {
        lemma_bytes_total(a.drop_first(), b.drop_first());
        if a.drop_first() == b.drop_first() {
            assert(a =~= seq![a[0]] + a.drop_first());
            assert(b =~= seq![b[0]] + b.drop_first());
        }
    } else if a.len() == 0 && b.len() == 0 {
        assert(a =~= b);
    }
}

/// Text is determined by its UTF-8 encoding.
proof fn lemma_encoding_injective(a: Seq<char>, b: Seq<char>)
    requires
        encode_utf8(a) == encode_utf8(b),
    ensures
        a == b,
{
    encode_utf8_decode_utf8(a);
    encode_utf8_decode_utf8(b);
}

/// No label comes before itself.
proof fn lemma_label_irreflexive(a: LabelView)
    ensures
        !label_lt(a, a),
{
    lemma_bytes_irreflexive(encode_utf8(a.name));
    lemma_bytes_irreflexive(encode_utf8(a.value));
}

/// The order on labels is transitive.
proof fn lemma_label_transitive(a: LabelView, b: LabelView, c: LabelView)
    requires
        label_lt(a, b),
        label_lt(b, c),
    ensures
        label_lt(a, c),
{
    if text_lt(a.name, b.name) && text_lt(b.name, c.name) {
        lemma_bytes_transitive(encode_utf8(a.name), encode_utf8(b.name), encode_utf8(c.name));
    }
    if text_lt(a.value, b.value) && text_lt(b.value, c.value) {
        lemma_bytes_transitive(
            encode_utf8(a.value),
            encode_utf8(b.value),
            encode_utf8(c.value),
        );
    }
}

/// Any two labels are ordered or the same.
proof fn lemma_label_total(a: LabelView, b: LabelView)
    ensures
        label_lt(a, b) || a == b || label_lt(b, a),
{
    lemma_bytes_total(encode_utf8(a.name), encode_utf8(b.name));
    lemma_bytes_total(encode_utf8(a.value), encode_utf8(b.value));
    if encode_utf8(a.name) == encode_utf8(b.name) {
        lemma_encoding_injective(a.name, b.name);
    }
    if encode_utf8(a.value) == encode_utf8(b.value) {
        lemma_encoding_injective(a.value, b.value);
    }
}

/// No label list comes before itself.
proof fn lemma_labels_irreflexive(a: Seq<LabelView>)
    ensures
        !labels_lt(a, a),
    decreases a.len(),
{
    if a.len() > 0 {
        lemma_labels_irreflexive(a.drop_first());
    }
}

/// The order on label lists is transitive.
proof fn lemma_labels_transitive(a: Seq<LabelView>, b: Seq<LabelView>, c: Seq<LabelView>)
    requires
        labels_lt(a, b),
        labels_lt(b, c),
    ensures
        labels_lt(a, c),
    decreases a.len(),
{
    if a.len() > 0 {
        if a[0] == b[0] && b[0] == c[0] {
            lemma_labels_transitive(a.drop_first(), b.drop_first(), c.drop_first());
        } else if a[0] != b[0] && b[0] != c[0] {
            lemma_label_transitive(a[0], b[0], c[0]);
            lemma_label_irreflexive(a[0]);
        }
    }
}

/// Any two label lists are ordered or the same.
proof fn lemma_labels_total(a: Seq<LabelView>, b: Seq<LabelView>)
    ensures
        labels_lt(a, b) || a == b || labels_lt(b, a),
    decreases a.len(),
{
    if a.len() > 0 && b.len() > 0 {
        if a[0] == b[0] {
            lemma_labels_total(a.drop_first(), b.drop_first());
            if a.drop_first() == b.drop_first() {
                assert(a =~= seq![a[0]] + a.drop_first());
                assert(b =~= seq![b[0]] + b.drop_first());
            }
        } else {
            lemma_label_total(a[0], b[0]);
        }
    } else if a.len() == 0 && b.len() == 0 {
        assert(a =~= b);
    }
}

/// No key comes before itself.
pub proof fn lemma_key_irreflexive(a: MetricKeyView)
    ensures
        !key_lt(a, a),
{
    lemma_bytes_irreflexive(encode_utf8(a.name));
    lemma_labels_irreflexive(a.labels);
}

/// The order on keys is transitive.
pub proof fn lemma_key_transitive(a: MetricKeyView, b: MetricKeyView, c: MetricKeyView)
    requires
        key_lt(a, b),
        key_lt(b, c),
    ensures
        key_lt(a, c),
{
    if text_lt(a.name, b.name) && text_lt(b.name, c.name) {
        lemma_bytes_transitive(encode_utf8(a.name), encode_utf8(b.name), encode_utf8(c.name));
    }
    if labels_lt(a.labels, b.labels) && labels_lt(b.labels, c.labels) {
        lemma_labels_transitive(a.labels, b.labels, c.labels);
    }
}

/// Any two keys are ordered or the same.
pub proof fn lemma_key_total(a: MetricKeyView, b: MetricKeyView)
    ensures
        key_lt(a, b) || a == b || key_lt(b, a),
{
    lemma_bytes_total(encode_utf8(a.name), encode_utf8(b.name));
    lemma_labels_total(a.labels, b.labels);
    if encode_utf8(a.name) == encode_utf8(b.name) {
        lemma_encoding_injective(a.name, b.name);
    }
}

/// Of two keys at most one comes before the other.
pub proof fn lemma_key_asymmetric(a: MetricKeyView, b: MetricKeyView)
    requires
        key_lt(a, b),
    ensures
        !key_lt(b, a),
        a != b,
{
    lemma_key_irreflexive(a);
    if key_lt(b, a) {
        lemma_key_transitive(a, b, a);
    }
}

/// Compares two byte strings lexicographically.
pub fn compare_bytes(a: &[u8], b: &[u8]) -> (order: Order)
    ensures
        order_is(order, bytes_lt(a@, b@), a@ == b@, bytes_lt(b@, a@)),
{
    let mut i: usize = 0;
    proof {
        assert(a@.skip(0) =~= a@);
        assert(b@.skip(0) =~= b@);
    }
    while i < a.len() && i < b.len()
        invariant
            i <= a.len(),
            i <= b.len(),
            a@.take(i as int) == b@.take(i as int),
            bytes_lt(a@, b@) == bytes_lt(a@.skip(i as int), b@.skip(i as int)),
            bytes_lt(b@, a@) == bytes_lt(b@.skip(i as int), a@.skip(i as int)),
        decreases a.len() - i,
    {
        let x = a[i];
        let y = b[i];
        proof {
            assert(a@.skip(i as int).drop_first() =~= a@.skip(i + 1));
            assert(b@.skip(i as int).drop_first() =~= b@.skip(i + 1));
            assert(a@.skip(i as int)[0] == x);
            assert(b@.skip(i as int)[0] == y);
        }
        if x < y {
            proof {
                assert(a@[i as int] != b@[i as int]);
            }
            return Order::Less;
        }
        if x > y {
            proof {
                assert(a@[i as int] != b@[i as int]);
            }
            return Order::Greater;
        }
        proof {
            assert(a@.take(i + 1) =~= a@.take(i as int).push(x));
            assert(b@.take(i + 1) =~= b@.take(i as int).push(y));
        }
        i += 1;
    }
    proof {
        assert(a@.skip(i as int).len() == a.len() - i);
        assert(b@.skip(i as int).len() == b.len() - i);
        if i == a.len() && i == b.len() {
            assert(a@ =~= a@.take(i as int));
            assert(b@ =~= b@.take(i as int));
        }
    }
    if i < b.len() {
        Order::Less
    } else if i < a.len() {
        Order::Greater
    } else {
        Order::Equal
    }
}

/// Compares two texts by their UTF-8 encoding.
pub fn compare_text(a: &str, b: &str) -> (order: Order)
    ensures
        order_is(order, text_lt(a@, b@), a@ == b@, text_lt(b@, a@)),
{
    let order = compare_bytes(a.as_bytes(), b.as_bytes());
    proof {
        if encode_utf8(a@) == encode_utf8(b@) {
            lemma_encoding_injective(a@, b@);
        }
    }
    order
}

impl Label {
    /// Compares two labels by name, then by value.
    pub fn compare(&self, other: &Label) -> (order: Order)
        ensures
            order_is(order, label_lt(self@, other@), self@ == other@, label_lt(other@, self@)),
    {
        proof {
            lemma_bytes_irreflexive(encode_utf8(self@.name));
            if text_lt(self@.name, other@.name) {
                lemma_bytes_asymmetric(encode_utf8(self@.name), encode_utf8(other@.name));
            }
            if text_lt(other@.name, self@.name) {
                lemma_bytes_asymmetric(encode_utf8(other@.name), encode_utf8(self@.name));
            }
        }
        match compare_text(self.name.as_str(), other.name.as_str()) {
            Order::Less => Order::Less,
            Order::Greater => Order::Greater,
            Order::Equal => compare_text(self.value.as_str(), other.value.as_str()),
        }
    }
}

impl Clone for Label {
    fn clone(&self) -> (r: Self)
        ensures
            r@ == self@,
    {
        Label { name: self.name.clone(), value: self.value.clone() }
    }
}

/// Compares two label lists lexicographically.
pub fn compare_labels(a: &Vec<Label>, b: &Vec<Label>) -> (order: Order)
    ensures
        order_is(
            order,
            labels_lt(label_views(a@), label_views(b@)),
            label_views(a@) == label_views(b@),
            labels_lt(label_views(b@), label_views(a@)),
        ),
{
    let ghost va = label_views(a@);
    let ghost vb = label_views(b@);
    let mut i: usize = 0;
    proof {
        assert(va.skip(0) =~= va);
        assert(vb.skip(0) =~= vb);
    }
    while i < a.len() && i < b.len()
        invariant
            va == label_views(a@),
            vb == label_views(b@),
            i <= a.len(),
            i <= b.len(),
            va.take(i as int) == vb.take(i as int),
            labels_lt(va, vb) == labels_lt(va.skip(i as int), vb.skip(i as int)),
            labels_lt(vb, va) == labels_lt(vb.skip(i as int), va.skip(i as int)),
        decreases a.len() - i,
    {
        let order = a[i].compare(&b[i]);
        proof {
            assert(va.skip(i as int).drop_first() =~= va.skip(i + 1));
            assert(vb.skip(i as int).drop_first() =~= vb.skip(i + 1));
            assert(va.skip(i as int)[0] == a@[i as int]@);
            assert(vb.skip(i as int)[0] == b@[i as int]@);
            lemma_label_irreflexive(va[i as int]);
        }
        match order {
            Order::Less => {
                return Order::Less;
            },
            Order::Greater => {
                return Order::Greater;
            },
            Order::Equal => {},
        }
        proof {
            assert(va.take(i + 1) =~= va.take(i as int).push(va[i as int]));
            assert(vb.take(i + 1) =~= vb.take(i as int).push(vb[i as int]));
        }
        i += 1;
    }
    proof {
        assert(va.skip(i as int).len() == a.len() - i);
        assert(vb.skip(i as int).len() == b.len() - i);
        if i == a.len() && i == b.len() {
            assert(va =~= va.take(i as int));
            assert(vb =~= vb.take(i as int));
        }
    }
    if i < b.len() {
        Order::Less
    } else if i < a.len() {
        Order::Greater
    } else {
        Order::Equal
    }
}

impl MetricKey {
    /// A key from a metric name and its labels.
    pub fn new(name: String, labels: Vec<Label>) -> (r: Self)
        ensures
            r.name == name,
            r.labels == labels,
    {
        MetricKey { name, labels }
    }

    /// Compares two keys by name, then by labels.
    pub fn compare(&self, other: &MetricKey) -> (order: Order)
        ensures
            order_is(order, key_lt(self@, other@), self@ == other@, key_lt(other@, self@)),
    {
        proof {
            lemma_bytes_irreflexive(encode_utf8(self@.name));
            if text_lt(self@.name, other@.name) {
                lemma_bytes_asymmetric(encode_utf8(self@.name), encode_utf8(other@.name));
            }
            if text_lt(other@.name, self@.name) {
                lemma_bytes_asymmetric(encode_utf8(other@.name), encode_utf8(self@.name));
            }
        }
        match compare_text(self.name.as_str(), other.name.as_str()) {
            Order::Less => Order::Less,
            Order::Greater => Order::Greater,
            Order::Equal => compare_labels(&self.labels, &other.labels),
        }
    }
}

impl Clone for MetricKey {
    fn clone(&self) -> (r: Self)
        ensures
            r@ == self@,
    {
        let mut labels: Vec<Label> = Vec::new();
        let mut i: usize = 0;
        while i < self.labels.len()
            invariant
                i <= self.labels.len(),
                labels@.len() == i,
                forall|j: int| 0 <= j < i ==> labels@[j]@ == self.labels@[j]@,
            decreases self.labels.len() - i,
        {
            labels.push(self.labels[i].clone());
            i += 1;
        }
        proof {
            assert(label_views(labels@) =~= label_views(self.labels@));
        }
        MetricKey { name: self.name.clone(), labels }
    }
}

} // verus!
