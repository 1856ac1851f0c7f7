//! The registry of display names in use, and where new names come from.
use vstd::prelude::*;
use crate::text::views;

verus! {

/// The names that new connections are given.
pub open spec fn famous_people() -> Seq<Seq<char>> {
    seq![
        "Ada Lovelace"@,
        "Alan Turing"@,
        "Albert Einstein"@,
        "Archimedes"@,
        "Aristotle"@,
        "Barbara McClintock"@,
        "Carl Sagan"@,
        "Charles Darwin"@,
        "Carl Gauss"@,
        "Dorothy Hodgkin"@,
        "Edsger Dijkstra"@,
        "Emmy Noether"@,
        "Enrico Fermi"@,
        "Euclid"@,
        "Florence Nightingale"@,
        "Galileo Galilei"@,
        "Grace Hopper"@,
        "Gregor Mendel"@,
        "Hedy Lamarr"@,
        "Hypatia"@,
        "Isaac Newton"@,
        "Johannes Kepler"@,
        "John von Neumann"@,
        "Katherine Johnson"@,
        "Leonhard Euler"@,
        "Lise Meitner"@,
        "Louis Pasteur"@,
        "Margaret Hamilton"@,
        "Marie Curie"@,
        "Max Planck"@,
        "Michael Faraday"@,
        "Niels Bohr"@,
        "Nikola Tesla"@,
        "Pythagoras"@,
        "Richard Feynman"@,
        "Rosalind Franklin"@,
        "Srinivasa Ramanujan"@,
        "Stephen Hawking"@,
        "Tim Berners-Lee"@,
        "Werner Heisenberg"@,
    ]
}

fn famous_people_list() -> (r: Vec<&'static str>)
    ensures
        r@.map_values(|s: &str| s@) == famous_people(),
{
    let v = vec![
        "Ada Lovelace",
        "Alan Turing",
        "Albert Einstein",
        "Archimedes",
        "Aristotle",
        "Barbara McClintock",
        "Carl Sagan",
        "Charles Darwin",
        "Carl Gauss",
        "Dorothy Hodgkin",
        "Edsger Dijkstra",
        "Emmy Noether",
        "Enrico Fermi",
        "Euclid",
        "Florence Nightingale",
        "Galileo Galilei",
        "Grace Hopper",
        "Gregor Mendel",
        "Hedy Lamarr",
        "Hypatia",
        "Isaac Newton",
        "Johannes Kepler",
        "John von Neumann",
        "Katherine Johnson",
        "Leonhard Euler",
        "Lise Meitner",
        "Louis Pasteur",
        "Margaret Hamilton",
        "Marie Curie",
        "Max Planck",
        "Michael Faraday",
        "Niels Bohr",
        "Nikola Tesla",
        "Pythagoras",
        "Richard Feynman",
        "Rosalind Franklin",
        "Srinivasa Ramanujan",
        "Stephen Hawking",
        "Tim Berners-Lee",
        "Werner Heisenberg",
    ];
    assert(v@.map_values(|s: &str| s@) =~= famous_people());
    v
}

/// Relies on `fastrand::choice`: for a non-empty slice, one of its items
/// picked at random; `None` for an empty one.
#[verifier::external_body]
fn pick(items: &[&'static str]) -> (r: Option<&'static str>)
    ensures
        items@.len() == 0 <==> r is None,
        r is Some ==> items@.contains(r->0),
{
    fastrand::choice(items).copied()
}

/// A name drawn at random from the famous people.
pub fn random_name() -> (r: String)
    ensures
        famous_people().contains(r@),
{
    let list = famous_people_list();
    assert(list@.map_values(|s: &str| s@).len() > 0);
    let picked = pick(list.as_slice());
    let name = picked.unwrap();
    proof {
        let i = choose|i: int| 0 <= i < list@.len() && list@[i] == name;
        assert(famous_people()[i] == name@);
    }
    String::from_str(name)
}

/// Removing one item of a sequence without duplicates removes it from
/// its set, and leaves no duplicates.
pub proof fn lemma_remove_unique<A>(s: Seq<A>, i: int)
    requires
        s.no_duplicates(),
        0 <= i < s.len(),
    ensures
        s.remove(i).no_duplicates(),
        s.remove(i).to_set() == s.to_set().remove(s[i]),
{
    let r = s.remove(i);
    assert forall|x: A| r.to_set().contains(x) <==> s.to_set().remove(s[i]).contains(x) by {
        if r.contains(x) {
            let j = choose|j: int| 0 <= j < r.len() && r[j] == x;
            if j < i {
                assert(s[j] == x);
            } else {
                assert(s[j + 1] == x);
            }
        }
        if s.contains(x) && x != s[i] {
            let k = choose|k: int| 0 <= k < s.len() && s[k] == x;
            if k < i {
                assert(r[k] == x);
            } else {
                assert(r[k - 1] == x);
            }
        }
    }
    assert(r.to_set() =~= s.to_set().remove(s[i]));
    assert forall|j: int, k: int| 0 <= j < r.len() && 0 <= k < r.len() && j != k implies r[j]
        != r[k] by {
        let jj = if j < i { j } else { j + 1 };
        let kk = if k < i { k } else { k + 1 };
        assert(r[j] == s[jj] && r[k] == s[kk]);
    }
}

/// The set of display names currently held by connected sessions.
pub struct Names {
    existing: Vec<String>,
}

/// `names` holds `name`.
pub open spec fn holds(names: Seq<String>, name: Seq<char>) -> bool {
    views(names).contains(name)
}

/// `after` is `before` with the fresh name `r` added.
pub open spec fn allocated(before: Set<Seq<char>>, after: Set<Seq<char>>, r: Seq<char>) -> bool {
    &&& !before.contains(r)
    &&& after == before.insert(r)
}

impl View for Names {
    type V = Set<Seq<char>>;

    closed spec fn view(&self) -> Set<Seq<char>> {
        views(self.existing@).to_set()
    }
}

impl Names {
    /// No name is held twice.
    pub closed spec fn wf(&self) -> bool {
        views(self.existing@).no_duplicates()
    }

    /// An empty registry.
    pub fn new() -> (r: Names)
        ensures
            r.wf(),
            r@ == Set::<Seq<char>>::empty(),
    {
        let r = Names { existing: Vec::new() };
        assert(views(r.existing@) =~= seq![]);
        assert(r@ =~= Set::<Seq<char>>::empty());
        r
    }

    fn position(&self, s: &String) -> (r: Option<usize>)
        ensures
            match r {
                Some(i) => i < self.existing@.len() && self.existing@[i as int]@ == s@,
                None => !self@.contains(s@),
            },
            r is Some ==> self@.contains(s@),
    {
        let mut i: usize = 0;
        while i < self.existing.len()
            invariant
                i <= self.existing@.len(),
                forall|j: int| 0 <= j < i ==> self.existing@[j]@ != s@,
            decreases self.existing.len() - i,
        {
            if self.existing[i] == *s {
                assert(views(self.existing@)[i as int] == s@);
                return Some(i);
            }
            i = i + 1;
        }
        proof {
            if views(self.existing@).contains(s@) {
                let j = choose|j: int| 0 <= j < views(self.existing@).len() && views(self.existing@)[j] == s@;
                assert(self.existing@[j]@ == s@);
            }
        }
        None
    }

    /// Whether `s` is held.
    pub fn contains(&self, s: &String) -> (r: bool)
        ensures
            r == self@.contains(s@),
    {
        self.position(s).is_some()
    }

    /// Adds `str` unless it is held already; says whether it was added.
    pub fn insert(&mut self, str: String) -> (r: bool)
        requires
            old(self).wf(),
        ensures
            final(self).wf(),
            r == !old(self)@.contains(str@),
            final(self)@ == old(self)@.insert(str@),
    {
        if self.position(&str).is_some() {
            assert(self@.contains(str@)) by {
                let i = choose|i: int| 0 <= i < self.existing@.len() && self.existing@[i]@ == str@;
                assert(views(self.existing@)[i] == str@);
            };
            assert(self@.insert(str@) =~= self@);
            return false;
        }
        let ghost before = views(self.existing@);
        self.existing.push(str);
        assert(views(self.existing@) =~= before.push(str@));
        assert(self@ =~= before.to_set().insert(str@)) by {
            before.lemma_push_to_set_commute(str@);
        }
        true
    }

    /// Removes `str` if it is held; says whether it was.
    pub fn remove(&mut self, str: &String) -> (r: bool)
        requires
            old(self).wf(),
        ensures
            final(self).wf(),
            r == old(self)@.contains(str@),
            final(self)@ == old(self)@.remove(str@),
    {
        match self.position(str) {
            None => {
                assert(self@.remove(str@) =~= self@);
                false
            },
            Some(i) => {
                let ghost before = views(self.existing@);
                assert(before[i as int] == str@);
                self.existing.remove(i);
                assert(views(self.existing@) =~= before.remove(i as int));
                proof {
                    lemma_remove_unique(before, i as int);
                }
                true
            },
        }
    }

    /// Takes a name that nobody holds: first from random draws among the
    /// famous people, then from the first of them that is free. `None`,
    /// with nothing changed, when every one of them is held.
    pub fn get_unique(&mut self) -> (r: Option<String>)
        requires
            old(self).wf(),
        ensures
            final(self).wf(),
            match r {
                Some(n) => famous_people().contains(n@) && allocated(old(self)@, final(self)@, n@),
                None => final(self)@ == old(self)@ && forall|i: int|
                    0 <= i < famous_people().len() ==> old(self)@.contains(famous_people()[i]),
            },
    {
        let ghost start = self@;
        let list = famous_people_list();
        let mut tries: usize = 0;
        while tries < list.len()
            invariant
                self.wf(),
                self@ == start,
                start == old(self)@,
                list@.map_values(|s: &str| s@) == famous_people(),
            decreases list.len() - tries,
        {
            let candidate = random_name();
            if self.insert(candidate.clone()) {
                return Some(candidate);
            }
            assert(self@ =~= start);
            tries = tries + 1;
        }
        let mut i: usize = 0;
        while i < list.len()
            invariant
                self.wf(),
                self@ == start,
                start == old(self)@,
                list@.map_values(|s: &str| s@) == famous_people(),
                i <= list@.len(),
                forall|j: int| 0 <= j < i ==> start.contains(famous_people()[j]),
            decreases list.len() - i,
        {
            let candidate = String::from_str(list[i]);
            assert(candidate@ == famous_people()[i as int]);
            if self.insert(candidate.clone()) {
                assert(famous_people().contains(candidate@)) by {
                    assert(famous_people()[i as int] == candidate@);
                }
                return Some(candidate);
            }
            assert(self@ =~= start);
            i = i + 1;
        }
        None
    }

    /// Every name held, each once, in no particular order.
    pub fn get_existing(&self) -> (r: Vec<String>)
        requires
            self.wf(),
        ensures
            views(r@).no_duplicates(),
            views(r@).to_set() == self@,
    {
        let mut out: Vec<String> = Vec::new();
        let mut i: usize = 0;
        while i < self.existing.len()
            invariant
                i <= self.existing@.len(),
                views(out@) == views(self.existing@).take(i as int),
            decreases self.existing.len() - i,
        {
            let ghost prev = views(out@);
            let item = self.existing[i].clone();
            assert(item@ == self.existing@[i as int]@);
            out.push(item);
            assert(views(out@) =~= prev.push(item@));
            assert(views(out@) =~= views(self.existing@).take(i + 1));
            i = i + 1;
        }
        assert(views(self.existing@).take(i as int) =~= views(self.existing@));
        out
    }

    /// The set of names held is finite.
    pub proof fn lemma_finite(&self)
        ensures
            self@.finite(),
    {
        vstd::seq_lib::seq_to_set_is_finite(views(self.existing@));
    }

    /// How many names are held.
    pub fn len(&self) -> (r: usize)
        requires
            self.wf(),
        ensures
            r == self@.len(),
            r == 0 <==> self@ == Set::<Seq<char>>::empty(),
    {
        proof {
            views(self.existing@).unique_seq_to_set();
            if self.existing@.len() > 0 {
                assert(self@.contains(views(self.existing@)[0]));
            } else {
                assert(self@ =~= Set::<Seq<char>>::empty());
            }
        }
        self.existing.len()
    }
}

/// Two allocations made one after the other never hand out the same name.
pub proof fn lemma_allocations_distinct(
    n0: Set<Seq<char>>,
    n1: Set<Seq<char>>,
    n2: Set<Seq<char>>,
    a: Seq<char>,
    b: Seq<char>,
)
    requires
        allocated(n0, n1, a),
        allocated(n1, n2, b),
    ensures
        a != b,
{
}

} // verus!
