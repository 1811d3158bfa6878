//! Small sample resources that cross-chain calls are exercised against: a
//! greeting holder, a string-list holder and a holder of a tuple of values.
use vstd::prelude::*;
use crate::text::views;

verus! {

/// Holds one greeting.
pub struct HelloWorld {
    name: String,
}

impl HelloWorld {
    /// The greeting held.
    pub closed spec fn name_view(&self) -> Seq<char> {
        self.name@
    }

    /// Starts with `HelloWorld!`.
    pub fn new() -> (r: Self)
        ensures
            r.name_view() == "HelloWorld!"@,
    {
        HelloWorld { name: String::from_str("HelloWorld!") }
    }

    /// The greeting held.
    pub fn get(&self) -> (r: String)
        ensures
            r@ == self.name_view(),
    {
        self.name.clone()
    }

    /// Replaces the greeting.
    pub fn set(&mut self, name: String)
        ensures
            final(self).name_view() == name@,
    {
        self.name = name;
    }

    /// Returns its argument.
    pub fn get1(&self, s: String) -> (r: String)
        ensures
            r@ == s@,
    {
        s
    }

    /// Returns its arguments joined.
    pub fn get2(&self, s1: String, s2: String) -> (r: String)
        ensures
            r@ == s1@ + s2@,
    {
        s1.concat(s2.as_str())
    }
}

/// Holds a list of strings.
pub struct HelloWeCross {
    ss: Vec<String>,
}

/// A copy of each string of `v`.
fn copy_strings(v: &Vec<String>) -> (r: Vec<String>)
    ensures
        views(r@) == views(v@),
{
    let mut out: Vec<String> = Vec::new();
    let mut i: usize = 0;
    while i < v.len()
        invariant
            i <= v.len(),
            views(out@) == views(v@).take(i as int),
        decreases v.len() - i,
    {
        let ghost before = out@;
        out.push(v[i].clone());
        assert(views(out@) =~= views(before).push(v@[i as int]@));
        assert(views(v@).take(i + 1) =~= views(v@).take(i as int).push(v@[i as int]@));
        i = i + 1;
    }
    assert(views(v@).take(v.len() as int) =~= views(v@));
    out
}

impl HelloWeCross {
    /// The strings held.
    pub closed spec fn list(&self) -> Seq<Seq<char>> {
        views(self.ss@)
    }

    /// Starts empty.
    pub fn new() -> (r: Self)
        ensures
            r.list() == Seq::<Seq<char>>::empty(),
    {
        let r = HelloWeCross { ss: Vec::new() };
        assert(r.list() =~= Seq::empty());
        r
    }

    /// The strings held.
    pub fn get(&self) -> (r: Vec<String>)
        ensures
            views(r@) == self.list(),
    {
        copy_strings(&self.ss)
    }

    /// The strings held; the list is emptied.
    pub fn getAndClear(&mut self) -> (r: Vec<String>)
        ensures
            views(r@) == old(self).list(),
            final(self).list() == Seq::<Seq<char>>::empty(),
    {
        let r = copy_strings(&self.ss);
        self.ss = Vec::new();
        assert(self.list() =~= Seq::empty());
        r
    }

    /// Replaces the strings held and returns them.
    pub fn set(&mut self, ss: Vec<String>) -> (r: Vec<String>)
        ensures
            final(self).list() == views(ss@),
            views(r@) == views(ss@),
    {
        self.ss = ss;
        self.get()
    }
}

/// Three numbers.
#[derive(Clone, Copy, PartialEq, Eq, Structural, Debug)]
pub struct Item {
    pub a: i32,
    pub b: i32,
    pub c: i32,
}

/// A named count with its items.
#[derive(Clone, PartialEq, Eq, Debug)]
pub struct Info {
    pub name: String,
    pub count: i32,
    pub items: Vec<Item>,
}

/// Holds a number, an item and a text.
pub struct TupleTest {
    a: i32,
    b: Item,
    c: String,
}

impl TupleTest {
    /// The values held.
    pub closed spec fn values(&self) -> (i32, Item, Seq<char>) {
        (self.a, self.b, self.c@)
    }

    /// Starts with the given values.
    pub fn new(a: i32, b: Item, c: String) -> (r: Self)
        ensures
            r.values() == (a, b, c@),
    {
        TupleTest { a, b, c }
    }

    /// Replaces the values held.
    pub fn set1(&mut self, a: i32, b: Item, c: String)
        ensures
            final(self).values() == (a, b, c@),
    {
        self.a = a;
        self.b = b;
        self.c = c;
    }

    /// The values held.
    pub fn get1(&self) -> (r: (i32, Item, String))
        ensures
            (r.0, r.1, r.2@) == self.values(),
    {
        (self.a, self.b, self.c.clone())
    }

    /// Replaces the values held and returns them.
    pub fn getAndSet1(&mut self, a: i32, b: Item, c: String) -> (r: (i32, Item, String))
        ensures
            final(self).values() == (a, b, c@),
            (r.0, r.1, r.2@) == (a, b, c@),
    {
        self.set1(a, b, c);
        self.get1()
    }

    /// Returns its arguments.
    pub fn getAndSet2(&mut self, a: i32, b: Item, c: String) -> (r: (i32, Item, String))
        ensures
            *final(self) == *old(self),
            (r.0, r.1, r.2@) == (a, b, c@),
    {
        (a, b, c)
    }

    /// A fixed sample: a number, two single-entry lists of infos, a text.
    pub fn getSampleTupleValue(&self) -> (r: (i32, Vec<Vec<Info>>, String))
        ensures
            r.0 == 100,
            r.1@.len() == 2,
            r.1@[0]@.len() == 1,
            r.1@[1]@.len() == 1,
            r.1@[0]@[0].name@ == "Hello world! + 1 "@,
            r.1@[0]@[0].count == 100,
            r.1@[0]@[0].items@ == seq![Item { a: 1, b: 2, c: 3 }],
            r.1@[1]@[0].name@ == "Hello world! + 2 "@,
            r.1@[1]@[0].count == 101,
            r.1@[1]@[0].items@ == seq![Item { a: 4, b: 5, c: 6 }],
            r.2@ == "Hello world! + 3 "@,
    {
        let info0 = Info {
            name: String::from_str("Hello world! + 1 "),
            count: 100,
            items: vec![Item { a: 1, b: 2, c: 3 }],
        };
        let info1 = Info {
            name: String::from_str("Hello world! + 2 "),
            count: 101,
            items: vec![Item { a: 4, b: 5, c: 6 }],
        };
        let mut b: Vec<Vec<Info>> = Vec::new();
        b.push(vec![info0]);
        b.push(vec![info1]);
        assert(b@[0]@[0].items@ =~= seq![Item { a: 1, b: 2, c: 3 }]);
        assert(b@[1]@[0].items@ =~= seq![Item { a: 4, b: 5, c: 6 }]);
        (100, b, String::from_str("Hello world! + 3 "))
    }
}

} // verus!
