//! Counters of bytes and of instances, and one record of counters per
//! category of content.

use core::ops::{Add, AddAssign};
use vstd::prelude::*;
use vstd::std_specs::convert::FromSpecImpl;
use vstd::std_specs::ops::AddSpec;

verus! {

/// The sum of `values`.
pub open spec fn sum_of(values: Seq<nat>) -> nat
    decreases values.len(),
{
    if values.len() == 0 {
        0
    } else {
        sum_of(values.drop_last()) + values.last()
    }
}

/// The sum of a prefix is at most the sum of the whole.
pub proof fn lemma_sum_of_prefix(values: Seq<nat>, k: int)
    requires
        0 <= k <= values.len(),
    ensures
        sum_of(values.take(k)) <= sum_of(values),
    decreases values.len(),
{
    if k == values.len() {
        assert(values.take(k) =~= values);
    } else {
        lemma_sum_of_prefix(values.drop_last(), k);
        assert(values.drop_last().take(k) =~= values.take(k));
    }
}

/// The sum of two sequences, taken item by item, is the sum of their sums.
pub proof fn lemma_sum_of_pairwise(a: Seq<nat>, b: Seq<nat>)
    requires
        a.len() == b.len(),
    ensures
        sum_of(Seq::new(a.len(), |i: int| a[i] + b[i])) == sum_of(a) + sum_of(b),
    decreases a.len(),
{
    let c = Seq::new(a.len(), |i: int| a[i] + b[i]);
    if a.len() > 0 {
        lemma_sum_of_pairwise(a.drop_last(), b.drop_last());
        assert(c.drop_last() =~= Seq::new(
            a.drop_last().len(),
            |i: int| a.drop_last()[i] + b.drop_last()[i],
        ));
    }
}

/// The character of the decimal digit `d`.
pub open spec fn digit_char(d: nat) -> char {
    if d == 0 {
        '0'
    } else if d == 1 {
        '1'
    } else if d == 2 {
        '2'
    } else if d == 3 {
        '3'
    } else if d == 4 {
        '4'
    } else if d == 5 {
        '5'
    } else if d == 6 {
        '6'
    } else if d == 7 {
        '7'
    } else if d == 8 {
        '8'
    } else {
        '9'
    }
}

/// The decimal numeral of `n`, without leading zeros.
pub open spec fn decimal(n: nat) -> Seq<char>
    decreases n,
{
    if n < 10 {
        seq![digit_char(n)]
    } else {
        decimal(n / 10).push(digit_char(n % 10))
    }
}

/// The character of the decimal digit `d`.
fn digit(d: usize) -> (c: char)
    requires
        d < 10,
    ensures
        c == digit_char(d as nat),
{
    match d {
        0 => '0',
        1 => '1',
        2 => '2',
        3 => '3',
        4 => '4',
        5 => '5',
        6 => '6',
        7 => '7',
        8 => '8',
        _ => '9',
    }
}

/// The decimal numeral of `n`, without leading zeros.
fn decimal_string(n: usize) -> (text: String)
    ensures
        text@ == decimal(n as nat),
{
    // The digits below the leading one, the least significant first.
    let mut lower: Vec<char> = Vec::new();
    let mut rest: usize = n;
    while rest >= 10
        invariant
            decimal(n as nat) == decimal(rest as nat) + lower@.reverse(),
        decreases rest,
    {
        let next = digit(rest % 10);
        proof {
            let shorter = decimal((rest / 10) as nat);
            assert(lower@.push(next).reverse() =~= seq![next] + lower@.reverse());
            assert(shorter.push(next) + lower@.reverse() =~= shorter + (seq![next]
                + lower@.reverse()));
        }
        lower.push(next);
        rest = rest / 10;
    }
    let mut text = String::new();
    text.push(digit(rest));
    let mut i: usize = lower.len();
    while i > 0
        invariant
            i <= lower@.len(),
            text@ == decimal(rest as nat) + lower@.reverse().take(lower@.len() - i),
        decreases i,
    {
        proof {
            let reversed = lower@.reverse();
            let done = lower@.len() - i;
            assert(reversed[done] == lower@[i - 1]);
            assert(reversed.take(done + 1) =~= reversed.take(done).push(lower@[i - 1]));
            assert((decimal(rest as nat) + reversed.take(done)).push(lower@[i - 1]) =~= decimal(
                rest as nat,
            ) + reversed.take(done + 1));
        }
        i = i - 1;
        text.push(lower[i]);
    }
    assert(lower@.reverse().take(lower@.len() as int) =~= lower@.reverse());
    text
}

/// A number of bytes.
#[derive(Clone, Copy, Debug)]
pub struct Bytes(pub usize);

impl Default for Bytes {
    fn default() -> (res: Self)
        ensures
            res.0 == 0,
    {
        Bytes(0)
    }
}

impl From<usize> for Bytes {
    fn from(value: usize) -> (res: Self) {
        Bytes(value)
    }
}

impl FromSpecImpl<usize> for Bytes {
    open spec fn obeys_from_spec() -> bool {
        true
    }

    open spec fn from_spec(value: usize) -> Self {
        Bytes(value)
    }
}

impl From<Bytes> for usize {
    fn from(value: Bytes) -> (res: Self) {
        value.0
    }
}

impl FromSpecImpl<Bytes> for usize {
    open spec fn obeys_from_spec() -> bool {
        true
    }

    open spec fn from_spec(value: Bytes) -> Self {
        value.0
    }
}

impl Add for Bytes {
    type Output = Bytes;

    fn add(self, rhs: Bytes) -> (res: Bytes) {
        Bytes(self.0 + rhs.0)
    }
}

impl vstd::std_specs::ops::AddSpecImpl for Bytes {
    open spec fn obeys_add_spec() -> bool {
        true
    }

    open spec fn add_req(self, rhs: Bytes) -> bool {
        self.0 + rhs.0 <= usize::MAX
    }

    open spec fn add_spec(self, rhs: Bytes) -> Bytes {
        Bytes((self.0 + rhs.0) as usize)
    }
}

impl AddAssign for Bytes {
    fn add_assign(&mut self, rhs: Bytes)
        requires
            old(self).0 + rhs.0 <= usize::MAX,
        ensures
            final(self).0 == old(self).0 + rhs.0,
    {
        self.0 = self.0 + rhs.0;
    }
}

impl Bytes {
    /// The number in decimal digits.
    pub fn to_string(&self) -> (text: String)
        ensures
            text@ == decimal(self.0 as nat),
    {
        decimal_string(self.0)
    }

    /// The numbers that `items` hold, in their order.
    pub open spec fn counts(items: Seq<Bytes>) -> Seq<nat> {
        Seq::new(items.len(), |i: int| items[i].0 as nat)
    }

    /// The sum of `items`, counted up from zero.
    pub fn sum(items: &[Bytes]) -> (res: Bytes)
        requires
            sum_of(Self::counts(items@)) <= usize::MAX,
        ensures
            res.0 == sum_of(Self::counts(items@)),
    {
        let ghost all = Self::counts(items@);
        let mut acc: Bytes = Default::default();
        let mut i: usize = 0;
        while i < items.len()
            invariant
                i <= items@.len(),
                all == Self::counts(items@),
                acc.0 == sum_of(all.take(i as int)),
                sum_of(all) <= usize::MAX,
            decreases items@.len() - i,
        {
            proof {
                lemma_sum_of_prefix(all, i + 1);
                assert(all.take(i + 1).drop_last() =~= all.take(i as int));
            }
            acc = acc + items[i];
            i = i + 1;
        }
        assert(all.take(i as int) =~= all);
        acc
    }
}

/// A number of instances of some item.
#[derive(Clone, Copy, Debug)]
pub struct Instances(pub usize);

impl Default for Instances {
    fn default() -> (res: Self)
        ensures
            res.0 == 0,
    {
        Instances(0)
    }
}

impl From<usize> for Instances {
    fn from(value: usize) -> (res: Self) {
        Instances(value)
    }
}

impl FromSpecImpl<usize> for Instances {
    open spec fn obeys_from_spec() -> bool {
        true
    }

    open spec fn from_spec(value: usize) -> Self {
        Instances(value)
    }
}

impl From<Instances> for usize {
    fn from(value: Instances) -> (res: Self) {
        value.0
    }
}

impl FromSpecImpl<Instances> for usize {
    open spec fn obeys_from_spec() -> bool {
        true
    }

    open spec fn from_spec(value: Instances) -> Self {
        value.0
    }
}

impl Add for Instances {
    type Output = Instances;

    fn add(self, rhs: Instances) -> (res: Instances) {
        Instances(self.0 + rhs.0)
    }
}

impl vstd::std_specs::ops::AddSpecImpl for Instances {
    open spec fn obeys_add_spec() -> bool {
        true
    }

    open spec fn add_req(self, rhs: Instances) -> bool {
        self.0 + rhs.0 <= usize::MAX
    }

    open spec fn add_spec(self, rhs: Instances) -> Instances {
        Instances((self.0 + rhs.0) as usize)
    }
}

impl AddAssign for Instances {
    fn add_assign(&mut self, rhs: Instances)
        requires
            old(self).0 + rhs.0 <= usize::MAX,
        ensures
            final(self).0 == old(self).0 + rhs.0,
    {
        self.0 = self.0 + rhs.0;
    }
}

impl Instances {
    /// The number in decimal digits.
    pub fn to_string(&self) -> (text: String)
        ensures
            text@ == decimal(self.0 as nat),
    {
        decimal_string(self.0)
    }

    /// The numbers that `items` hold, in their order.
    pub open spec fn counts(items: Seq<Instances>) -> Seq<nat> {
        Seq::new(items.len(), |i: int| items[i].0 as nat)
    }

    /// The sum of `items`, counted up from zero.
    pub fn sum(items: &[Instances]) -> (res: Instances)
        requires
            sum_of(Self::counts(items@)) <= usize::MAX,
        ensures
            res.0 == sum_of(Self::counts(items@)),
    {
        let ghost all = Self::counts(items@);
        let mut acc: Instances = Default::default();
        let mut i: usize = 0;
        while i < items.len()
            invariant
                i <= items@.len(),
                all == Self::counts(items@),
                acc.0 == sum_of(all.take(i as int)),
                sum_of(all) <= usize::MAX,
            decreases items@.len() - i,
        {
            proof {
                lemma_sum_of_prefix(all, i + 1);
                assert(all.take(i + 1).drop_last() =~= all.take(i as int));
            }
            acc = acc + items[i];
            i = i + 1;
        }
        assert(all.take(i as int) =~= all);
        acc
    }
}

/// Counters of bytes add up in any order and in any grouping, as long as
/// their sum can be held.
pub proof fn lemma_bytes_add_laws(a: Bytes, b: Bytes, c: Bytes)
    requires
        a.0 + b.0 + c.0 <= usize::MAX,
    ensures
        a.add_req(b) && b.add_req(a) && a.add_spec(b) == b.add_spec(a),
        a.add_spec(b).add_req(c) && b.add_req(c) && a.add_req(b.add_spec(c)),
        a.add_spec(b).add_spec(c) == a.add_spec(b.add_spec(c)),
{
}

/// Counters of instances add up in any order and in any grouping, as long as
/// their sum can be held.
pub proof fn lemma_instances_add_laws(a: Instances, b: Instances, c: Instances)
    requires
        a.0 + b.0 + c.0 <= usize::MAX,
    ensures
        a.add_req(b) && b.add_req(a) && a.add_spec(b) == b.add_spec(a),
        a.add_spec(b).add_req(c) && b.add_req(c) && a.add_req(b.add_spec(c)),
        a.add_spec(b).add_spec(c) == a.add_spec(b.add_spec(c)),
{
}

/// The bytes and the instances counted for one category, or for all.
#[derive(Clone, Copy, Debug)]
pub struct BytesAndInstances {
    pub bytes: Bytes,
    pub instances: Instances,
}

impl BytesAndInstances {
    pub fn new(bytes: Bytes, instances: Instances) -> (res: Self)
        ensures
            res.bytes == bytes,
            res.instances == instances,
    {
        BytesAndInstances { bytes, instances }
    }
}

/// One value for each category of content that is written to a stream.
///
/// Typically used to collect the number of bytes written in each category.
#[derive(Clone, Debug)]
pub struct ContentInfo<T> {
    pub bools: T,
    pub floats: T,
    pub unsigned_longs: T,
    pub string_enums: T,
    pub property_keys: T,
    pub identifier_names: T,
    pub interface_names: T,
    pub string_literals: T,
    pub list_lengths: T,
}

/// The names of the categories, in the order in which they are listed.
pub open spec fn category_names() -> Seq<&'static str> {
    seq![
        "bools",
        "floats",
        "unsigned_longs",
        "string_enums",
        "property_keys",
        "identifier_names",
        "interface_names",
        "string_literals",
        "list_lengths",
    ]
}

impl<T> ContentInfo<T> {
    /// The values of the categories, in the order in which they are listed.
    pub open spec fn values(self) -> Seq<T> {
        seq![
            self.bools,
            self.floats,
            self.unsigned_longs,
            self.string_enums,
            self.property_keys,
            self.identifier_names,
            self.interface_names,
            self.string_literals,
            self.list_lengths,
        ]
    }

    /// Whether each value of `self` is one that `f` gives for the name of
    /// its category.
    pub open spec fn is_made_by<F: Fn(&str) -> T>(self, f: F) -> bool {
        forall|i: int|
            0 <= i < 9 ==> call_ensures(f, (#[trigger] category_names()[i],), self.values()[i])
    }

    /// Whether each value of `self` is one that `f` gives for the name of
    /// its category and the value that `from` holds there.
    pub open spec fn is_made_from<S, F: Fn(&str, S) -> T>(self, from: ContentInfo<S>, f: F) -> bool {
        forall|i: int|
            0 <= i < 9 ==> call_ensures(
                f,
                (#[trigger] category_names()[i], from.values()[i]),
                self.values()[i],
            )
    }

    /// Whether `entries` lists the categories of `self` in their order, each
    /// by its name and its value.
    pub open spec fn is_listed_by(self, entries: Seq<(&'static str, T)>) -> bool {
        &&& entries.len() == 9
        &&& forall|i: int|
            0 <= i < 9 ==> (#[trigger] entries[i]).0 == category_names()[i] && entries[i].1
                == self.values()[i]
    }

    /// Whether `entries` lists the categories of `self` in their order, each
    /// by its name and a reference to its value.
    pub open spec fn is_shown_by(self, entries: Seq<(&'static str, &T)>) -> bool {
        &&& entries.len() == 9
        &&& forall|i: int|
            0 <= i < 9 ==> (#[trigger] entries[i]).0 == category_names()[i] && *entries[i].1
                == self.values()[i]
    }

    /// Initialize a new `ContentInfo`: `f` is called once for each category,
    /// with its name.
    pub fn with<F>(f: F) -> (res: Self) where F: Fn(&str) -> T
        requires
            forall|i: int| 0 <= i < 9 ==> call_requires(f, (#[trigger] category_names()[i],)),
        ensures
            res.is_made_by(f),
    {
        proof {
            Self::lemma_names();
        }
        ContentInfo {
            bools: f("bools"),
            floats: f("floats"),
            unsigned_longs: f("unsigned_longs"),
            string_enums: f("string_enums"),
            property_keys: f("property_keys"),
            identifier_names: f("identifier_names"),
            interface_names: f("interface_names"),
            string_literals: f("string_literals"),
            list_lengths: f("list_lengths"),
        }
    }

    /// Convert a `ContentInfo` into another one: `f` is called once for each
    /// category, with its name and its value.
    pub fn into_with<F, U>(self, f: F) -> (res: ContentInfo<U>) where F: Fn(&str, T) -> U
        requires
            forall|i: int|
                0 <= i < 9 ==> call_requires(f, (#[trigger] category_names()[i], self.values()[i])),
        ensures
            res.is_made_from(self, f),
    {
        proof {
            Self::lemma_names();
        }
        ContentInfo {
            bools: f("bools", self.bools),
            floats: f("floats", self.floats),
            unsigned_longs: f("unsigned_longs", self.unsigned_longs),
            string_enums: f("string_enums", self.string_enums),
            property_keys: f("property_keys", self.property_keys),
            identifier_names: f("identifier_names", self.identifier_names),
            interface_names: f("interface_names", self.interface_names),
            string_literals: f("string_literals", self.string_literals),
            list_lengths: f("list_lengths", self.list_lengths),
        }
    }

    /// The categories in their order, each with its name and a reference to
    /// its value.
    pub fn iter(&self) -> (res: Vec<(&'static str, &T)>)
        ensures
            self.is_shown_by(res@),
    {
        proof {
            Self::lemma_names();
        }
        vec![
            ("bools", &self.bools),
            ("floats", &self.floats),
            ("unsigned_longs", &self.unsigned_longs),
            ("string_enums", &self.string_enums),
            ("property_keys", &self.property_keys),
            ("identifier_names", &self.identifier_names),
            ("interface_names", &self.interface_names),
            ("string_literals", &self.string_literals),
            ("list_lengths", &self.list_lengths),
        ]
    }

    /// The categories in their order, each with its name and a reference
    /// through which its value can be changed.
    pub fn iter_mut(&mut self) -> (res: Vec<(&'static str, &mut T)>)
        ensures
            res@.len() == 9,
            forall|i: int|
                0 <= i < 9 ==> (#[trigger] res@[i]).0 == category_names()[i] && *res@[i].1 == old(
                    self,
                ).values()[i],
            forall|i: int| 0 <= i < 9 ==> final(self).values()[i] == *final((#[trigger] res@[i]).1),
    {
        proof {
            Self::lemma_names();
        }
        vec![
            ("bools", &mut self.bools),
            ("floats", &mut self.floats),
            ("unsigned_longs", &mut self.unsigned_longs),
            ("string_enums", &mut self.string_enums),
            ("property_keys", &mut self.property_keys),
            ("identifier_names", &mut self.identifier_names),
            ("interface_names", &mut self.interface_names),
            ("string_literals", &mut self.string_literals),
            ("list_lengths", &mut self.list_lengths),
        ]
    }

    /// The categories in their order, each with its name and its value.
    pub fn into_iter(self) -> (res: Vec<(&'static str, T)>)
        ensures
            self.is_listed_by(res@),
    {
        proof {
            Self::lemma_names();
        }
        vec![
            ("bools", self.bools),
            ("floats", self.floats),
            ("unsigned_longs", self.unsigned_longs),
            ("string_enums", self.string_enums),
            ("property_keys", self.property_keys),
            ("identifier_names", self.identifier_names),
            ("interface_names", self.interface_names),
            ("string_literals", self.string_literals),
            ("list_lengths", self.list_lengths),
        ]
    }

    /// A record made by `f` lists, for each category in its order, the name
    /// of the category and a value that `f` gives for that name.
    pub proof fn lemma_with_then_iter<F: Fn(&str) -> T>(
        self,
        f: F,
        entries: Seq<(&'static str, &T)>,
    )
        requires
            self.is_made_by(f),
            self.is_shown_by(entries),
        ensures
            entries.len() == 9,
            forall|i: int|
                0 <= i < 9 ==> (#[trigger] entries[i]).0 == category_names()[i] && call_ensures(
                    f,
                    (entries[i].0,),
                    *entries[i].1,
                ),
    {
        assert forall|i: int| 0 <= i < 9 implies (#[trigger] entries[i]).0 == category_names()[i]
            && call_ensures(f, (entries[i].0,), *entries[i].1) by {
            assert(call_ensures(f, (category_names()[i],), self.values()[i]));
        }
    }

    /// The nine names, each at its place.
    proof fn lemma_names()
        ensures
            category_names().len() == 9,
            category_names()[0] == "bools",
            category_names()[1] == "floats",
            category_names()[2] == "unsigned_longs",
            category_names()[3] == "string_enums",
            category_names()[4] == "property_keys",
            category_names()[5] == "identifier_names",
            category_names()[6] == "interface_names",
            category_names()[7] == "string_literals",
            category_names()[8] == "list_lengths",
    {
    }
}

impl<T: Default> Default for ContentInfo<T> {
    fn default() -> (res: Self)
        ensures
            forall|i: int| 0 <= i < 9 ==> call_ensures(T::default, (), #[trigger] res.values()[i]),
    {
        ContentInfo {
            bools: T::default(),
            floats: T::default(),
            unsigned_longs: T::default(),
            string_enums: T::default(),
            property_keys: T::default(),
            identifier_names: T::default(),
            interface_names: T::default(),
            string_literals: T::default(),
            list_lengths: T::default(),
        }
    }
}

impl<T: Add<Output = T>> Add for ContentInfo<T> {
    type Output = ContentInfo<T>;

    fn add(self, rhs: ContentInfo<T>) -> (res: ContentInfo<T>) {
        ContentInfo {
            bools: self.bools + rhs.bools,
            floats: self.floats + rhs.floats,
            unsigned_longs: self.unsigned_longs + rhs.unsigned_longs,
            string_enums: self.string_enums + rhs.string_enums,
            property_keys: self.property_keys + rhs.property_keys,
            identifier_names: self.identifier_names + rhs.identifier_names,
            interface_names: self.interface_names + rhs.interface_names,
            string_literals: self.string_literals + rhs.string_literals,
            list_lengths: self.list_lengths + rhs.list_lengths,
        }
    }
}

impl<T: Add<Output = T>> vstd::std_specs::ops::AddSpecImpl for ContentInfo<T> {
    open spec fn obeys_add_spec() -> bool {
        T::obeys_add_spec()
    }

    open spec fn add_req(self, rhs: ContentInfo<T>) -> bool {
        &&& self.bools.add_req(rhs.bools)
        &&& self.floats.add_req(rhs.floats)
        &&& self.unsigned_longs.add_req(rhs.unsigned_longs)
        &&& self.string_enums.add_req(rhs.string_enums)
        &&& self.property_keys.add_req(rhs.property_keys)
        &&& self.identifier_names.add_req(rhs.identifier_names)
        &&& self.interface_names.add_req(rhs.interface_names)
        &&& self.string_literals.add_req(rhs.string_literals)
        &&& self.list_lengths.add_req(rhs.list_lengths)
    }

    open spec fn add_spec(self, rhs: ContentInfo<T>) -> ContentInfo<T> {
        ContentInfo {
            bools: self.bools.add_spec(rhs.bools),
            floats: self.floats.add_spec(rhs.floats),
            unsigned_longs: self.unsigned_longs.add_spec(rhs.unsigned_longs),
            string_enums: self.string_enums.add_spec(rhs.string_enums),
            property_keys: self.property_keys.add_spec(rhs.property_keys),
            identifier_names: self.identifier_names.add_spec(rhs.identifier_names),
            interface_names: self.interface_names.add_spec(rhs.interface_names),
            string_literals: self.string_literals.add_spec(rhs.string_literals),
            list_lengths: self.list_lengths.add_spec(rhs.list_lengths),
        }
    }
}

impl<T: Add<Output = T> + Copy> AddAssign for ContentInfo<T> {
    fn add_assign(&mut self, rhs: ContentInfo<T>)
        requires
            old(self).add_req(rhs),
        ensures
            T::obeys_add_spec() ==> *final(self) == old(self).add_spec(rhs),
    {
        self.bools = self.bools + rhs.bools;
        self.floats = self.floats + rhs.floats;
        self.unsigned_longs = self.unsigned_longs + rhs.unsigned_longs;
        self.string_enums = self.string_enums + rhs.string_enums;
        self.property_keys = self.property_keys + rhs.property_keys;
        self.identifier_names = self.identifier_names + rhs.identifier_names;
        self.interface_names = self.interface_names + rhs.interface_names;
        self.string_literals = self.string_literals + rhs.string_literals;
        self.list_lengths = self.list_lengths + rhs.list_lengths;
    }
}

/// Merging two records of instances keeps the total: the values of the
/// merged record sum up to the sum of the two totals.
pub proof fn lemma_merge_keeps_total(a: ContentInfo<Instances>, b: ContentInfo<Instances>)
    requires
        a.add_req(b),
    ensures
        sum_of(Instances::counts(a.add_spec(b).values())) == sum_of(Instances::counts(a.values()))
            + sum_of(Instances::counts(b.values())),
{
    let x = Instances::counts(a.values());
    let y = Instances::counts(b.values());
    lemma_sum_of_pairwise(x, y);
    assert(Instances::counts(a.add_spec(b).values()) =~= Seq::new(x.len(), |i: int| x[i] + y[i]));
}

/// Records of instances merge in any order and in any grouping, as long as
/// the sums of each category can be held.
pub proof fn lemma_merge_laws(
    a: ContentInfo<Instances>,
    b: ContentInfo<Instances>,
    c: ContentInfo<Instances>,
)
    requires
        forall|i: int|
            0 <= i < 9 ==> (#[trigger] a.values()[i]).0 + b.values()[i].0 + c.values()[i].0
                <= usize::MAX,
    ensures
        a.add_req(b) && b.add_req(a) && a.add_spec(b) == b.add_spec(a),
        a.add_spec(b).add_req(c) && b.add_req(c) && a.add_req(b.add_spec(c)),
        a.add_spec(b).add_spec(c) == a.add_spec(b.add_spec(c)),
{
    assert(a.values()[0].0 + b.values()[0].0 + c.values()[0].0 <= usize::MAX);
    assert(a.values()[1].0 + b.values()[1].0 + c.values()[1].0 <= usize::MAX);
    assert(a.values()[2].0 + b.values()[2].0 + c.values()[2].0 <= usize::MAX);
    assert(a.values()[3].0 + b.values()[3].0 + c.values()[3].0 <= usize::MAX);
    assert(a.values()[4].0 + b.values()[4].0 + c.values()[4].0 <= usize::MAX);
    assert(a.values()[5].0 + b.values()[5].0 + c.values()[5].0 <= usize::MAX);
    assert(a.values()[6].0 + b.values()[6].0 + c.values()[6].0 <= usize::MAX);
    assert(a.values()[7].0 + b.values()[7].0 + c.values()[7].0 <= usize::MAX);
    assert(a.values()[8].0 + b.values()[8].0 + c.values()[8].0 <= usize::MAX);
}

impl ContentInfo<BytesAndInstances> {
    /// The bytes counted for each category, in the order of the categories.
    pub open spec fn bytes_counts(self) -> Seq<nat> {
        Seq::new(9, |i: int| self.values()[i].bytes.0 as nat)
    }

    /// The instances counted for each category, in the order of the
    /// categories.
    pub open spec fn instances_counts(self) -> Seq<nat> {
        Seq::new(9, |i: int| self.values()[i].instances.0 as nat)
    }

    /// The bytes and the instances of all categories together.
    pub fn total(&self) -> (res: BytesAndInstances)
        requires
            sum_of(self.bytes_counts()) <= usize::MAX,
            sum_of(self.instances_counts()) <= usize::MAX,
        ensures
            res.bytes.0 == sum_of(self.bytes_counts()),
            res.instances.0 == sum_of(self.instances_counts()),
    {
        let entries = self.iter();
        let mut bytes: Vec<Bytes> = Vec::new();
        let mut instances: Vec<Instances> = Vec::new();
        let mut i: usize = 0;
        while i < 9
            invariant
                i <= 9,
                self.is_shown_by(entries@),
                bytes@.len() == i,
                instances@.len() == i,
                forall|j: int| 0 <= j < i ==> #[trigger] bytes@[j] == self.values()[j].bytes,
                forall|j: int| 0 <= j < i ==> #[trigger] instances@[j] == self.values()[j].instances,
            decreases 9 - i,
        {
            bytes.push(entries[i].1.bytes);
            instances.push(entries[i].1.instances);
            i = i + 1;
        }
        assert(Bytes::counts(bytes@) =~= self.bytes_counts());
        assert(Instances::counts(instances@) =~= self.instances_counts());
        BytesAndInstances {
            bytes: Bytes::sum(bytes.as_slice()),
            instances: Instances::sum(instances.as_slice()),
        }
    }

    /// The bytes and the instances of all categories together, or `None`
    /// where one of the two sums cannot be held.
    pub fn checked_total(&self) -> (res: Option<BytesAndInstances>)
        ensures
            match res {
                Some(total) => total.bytes.0 == sum_of(self.bytes_counts()) && total.instances.0
                    == sum_of(self.instances_counts()),
                None => sum_of(self.bytes_counts()) > usize::MAX || sum_of(self.instances_counts())
                    > usize::MAX,
            },
    {
        let entries = self.iter();
        let ghost all_bytes = self.bytes_counts();
        let ghost all_instances = self.instances_counts();
        let mut bytes: usize = 0;
        let mut instances: usize = 0;
        let mut i: usize = 0;
        while i < 9
            invariant
                i <= 9,
                self.is_shown_by(entries@),
                all_bytes == self.bytes_counts(),
                all_instances == self.instances_counts(),
                bytes == sum_of(all_bytes.take(i as int)),
                instances == sum_of(all_instances.take(i as int)),
            decreases 9 - i,
        {
            proof {
                lemma_sum_of_prefix(all_bytes, i + 1);
                lemma_sum_of_prefix(all_instances, i + 1);
                assert(all_bytes.take(i + 1).drop_last() =~= all_bytes.take(i as int));
                assert(all_instances.take(i + 1).drop_last() =~= all_instances.take(i as int));
            }
            let entry = entries[i].1;
            match (bytes.checked_add(entry.bytes.0), instances.checked_add(entry.instances.0)) {
                (Some(more_bytes), Some(more_instances)) => {
                    bytes = more_bytes;
                    instances = more_instances;
                },
                _ => {
                    return None;
                },
            }
            i = i + 1;
        }
        assert(all_bytes.take(9) =~= all_bytes);
        assert(all_instances.take(9) =~= all_instances);
        Some(BytesAndInstances { bytes: Bytes(bytes), instances: Instances(instances) })
    }

    /// The categories whose vocabulary is fixed, each with the name under
    /// which it is reported.
    pub fn fixed(&self) -> (res: Vec<(&'static str, &BytesAndInstances)>)
        ensures
            res@ == seq![
                ("bools", &self.bools),
                ("string enums", &self.string_enums),
                ("interface names", &self.interface_names),
            ],
    {
        vec![
            ("bools", &self.bools),
            ("string enums", &self.string_enums),
            ("interface names", &self.interface_names),
        ]
    }

    /// The categories whose vocabulary the user extends, each with the name
    /// under which it is reported.
    pub fn user_extensible(&self) -> (res: Vec<(&'static str, &BytesAndInstances)>)
        ensures
            res@ == seq![
                ("property_keys", &self.property_keys),
                ("identifier names", &self.identifier_names),
                ("string literals", &self.string_literals),
                ("floats", &self.floats),
                ("unsigned longs", &self.unsigned_longs),
                ("list lengths", &self.list_lengths),
            ],
    {
        vec![
            ("property_keys", &self.property_keys),
            ("identifier names", &self.identifier_names),
            ("string literals", &self.string_literals),
            ("floats", &self.floats),
            ("unsigned longs", &self.unsigned_longs),
            ("list lengths", &self.list_lengths),
        ]
    }
}

} // verus!
