//! Domain names as sequences of labels, compared without regard to ASCII case.
use vstd::prelude::*;

verus! {

/// ASCII lower-casing of one byte.
pub open spec fn lower_byte(b: u8) -> u8 {
    if 65 <= b && b <= 90 {
        (b + 32) as u8
    } else {
        b
    }
}

/// ASCII lower-casing of one label.
pub open spec fn lower_label(l: Seq<u8>) -> Seq<u8> {
    l.map_values(|b: u8| lower_byte(b))
}

/// `a` lies at or below `b` in the name space: `b` is a suffix of `a`.
pub open spec fn is_subdomain_of(a: Seq<Seq<u8>>, b: Seq<Seq<u8>>) -> bool {
    b.len() <= a.len() && a.subrange(a.len() - b.len(), a.len() as int) == b
}

/// `a` lies strictly below `b`.
pub open spec fn is_strict_subdomain_of(a: Seq<Seq<u8>>, b: Seq<Seq<u8>>) -> bool {
    is_subdomain_of(a, b) && b.len() < a.len()
}

/// The ancestor of `a` that keeps its last `depth` labels.
pub open spec fn ancestor_at(a: Seq<Seq<u8>>, depth: int) -> Seq<Seq<u8>> {
    a.subrange(a.len() - depth, a.len() as int)
}

/// The single label `*`.
pub open spec fn star_label() -> Seq<u8> {
    seq![42u8]
}

/// The leftmost label is `*`.
pub open spec fn is_wildcard_name(a: Seq<Seq<u8>>) -> bool {
    a.len() > 0 && a[0] == star_label()
}

/// The wildcard name directly below `a`.
pub open spec fn wildcard_of(a: Seq<Seq<u8>>) -> Seq<Seq<u8>> {
    seq![star_label()] + a
}

/// A domain name. Labels are kept leftmost first (`www`, `example`, `org`)
/// and lower-cased when the name is made, so that two names are the same
/// name exactly when their views are equal.
#[derive(Debug, PartialEq, Eq)]
pub struct Name {
    labels: Vec<Vec<u8>>,
}

/// The byte sequences of a vector of labels.
pub open spec fn labels_view(v: Seq<Vec<u8>>) -> Seq<Seq<u8>> {
    v.map_values(|l: Vec<u8>| l@)
}

/// Pushing a label onto a vector pushes its bytes onto the view.
pub proof fn lemma_labels_view_push(v: Seq<Vec<u8>>, x: Vec<u8>)
    ensures
        labels_view(v.push(x)) == labels_view(v).push(x@),
{
    assert(labels_view(v.push(x)) =~= labels_view(v).push(x@));
}

impl View for Name {
    type V = Seq<Seq<u8>>;

    closed spec fn view(&self) -> Seq<Seq<u8>> {
        labels_view(self.labels@)
    }
}

fn lower_bytes(l: &Vec<u8>) -> (r: Vec<u8>)
    ensures
        r@ == lower_label(l@),
{
    let mut r: Vec<u8> = Vec::new();
    let mut i: usize = 0;
    while i < l.len()
        invariant
            i <= l.len(),
            r@ == lower_label(l@.subrange(0, i as int)),
        decreases l.len() - i,
    {
        let b = l[i];
        let lb: u8 = if 65 <= b && b <= 90 { b + 32 } else { b };
        r.push(lb);
        proof {
            assert(l@.subrange(0, i + 1) == l@.subrange(0, i as int).push(b));
        }
        i = i + 1;
    }
    proof {
        assert(l@.subrange(0, l@.len() as int) == l@);
    }
    r
}

/// Byte-wise equality of two labels.
pub fn bytes_eq(a: &Vec<u8>, b: &Vec<u8>) -> (r: bool)
    ensures
        r == (a@ == b@),
{
    if a.len() != b.len() {
        return false;
    }
    let mut i: usize = 0;
    while i < a.len()
        invariant
            i <= a.len(),
            a.len() == b.len(),
            forall|j: int| 0 <= j < i ==> a@[j] == b@[j],
        decreases a.len() - i,
    {
        if a[i] != b[i] {
            return false;
        }
        i = i + 1;
    }
    proof {
        assert(a@ =~= b@);
    }
    true
}

fn copy_bytes(a: &Vec<u8>) -> (r: Vec<u8>)
    ensures
        r@ == a@,
{
    let mut r: Vec<u8> = Vec::new();
    let mut i: usize = 0;
    while i < a.len()
        invariant
            i <= a.len(),
            r@ == a@.subrange(0, i as int),
        decreases a.len() - i,
    {
        r.push(a[i]);
        proof {
            assert(a@.subrange(0, i + 1) == a@.subrange(0, i as int).push(a@[i as int]));
        }
        i = i + 1;
    }
    proof {
        assert(a@.subrange(0, a@.len() as int) == a@);
    }
    r
}

impl Name {
    /// Makes a name from its labels, leftmost first; letters are lower-cased.
    pub fn new(labels: Vec<Vec<u8>>) -> (r: Name)
        ensures
            r@ == labels_view(labels@).map_values(|l: Seq<u8>| lower_label(l)),
    {
        let mut out: Vec<Vec<u8>> = Vec::new();
        let mut i: usize = 0;
        while i < labels.len()
            invariant
                i <= labels.len(),
                labels_view(out@) == labels_view(labels@).subrange(0, i as int).map_values(
                    |l: Seq<u8>| lower_label(l),
                ),
            decreases labels.len() - i,
        {
            let l = lower_bytes(&labels[i]);
            proof {
                lemma_labels_view_push(out@, l);
            }
            out.push(l);
            proof {
                assert(labels_view(labels@).subrange(0, i + 1) == labels_view(labels@).subrange(
                    0,
                    i as int,
                ).push(labels_view(labels@)[i as int]));
                assert(labels_view(out@) =~= labels_view(labels@).subrange(0, i + 1).map_values(
                    |l: Seq<u8>| lower_label(l),
                ));
            }
            i = i + 1;
        }
        proof {
            assert(labels_view(labels@).subrange(0, labels.len() as int) == labels_view(labels@));
        }
        Name { labels: out }
    }

    /// The root name, which has no labels.
    pub fn root() -> (r: Name)
        ensures
            r@ == Seq::<Seq<u8>>::empty(),
    {
        let r = Name { labels: Vec::new() };
        assert(r@ =~= Seq::<Seq<u8>>::empty());
        r
    }

    /// A copy of the labels, leftmost first.
    pub fn to_labels(&self) -> (r: Vec<Vec<u8>>)
        ensures
            labels_view(r@) == self@,
    {
        self.copy().labels
    }

    /// The number of labels.
    pub fn label_count(&self) -> (r: usize)
        ensures
            r == self@.len(),
    {
        self.labels.len()
    }

    /// The label at `i`, counted from the left.
    pub fn label(&self, i: usize) -> (r: &Vec<u8>)
        requires
            i < self@.len(),
        ensures
            r@ == self@[i as int],
    {
        &self.labels[i]
    }

    /// An independent copy of this name.
    pub fn copy(&self) -> (r: Name)
        ensures
            r@ == self@,
    {
        let mut out: Vec<Vec<u8>> = Vec::new();
        let mut i: usize = 0;
        while i < self.labels.len()
            invariant
                i <= self.labels.len(),
                labels_view(out@) == self@.subrange(0, i as int),
            decreases self.labels.len() - i,
        {
            let l = copy_bytes(&self.labels[i]);
            proof {
                lemma_labels_view_push(out@, l);
                assert(l@ == self@[i as int]);
            }
            out.push(l);
            proof {
                assert(labels_view(out@) =~= self@.subrange(0, i + 1));
            }
            i = i + 1;
        }
        proof {
            assert(self@.subrange(0, self@.len() as int) == self@);
        }
        Name { labels: out }
    }

    /// Whether two names are the same name.
    pub fn eq_name(&self, other: &Name) -> (r: bool)
        ensures
            r == (self@ == other@),
    {
        if self.labels.len() != other.labels.len() {
            proof {
                assert(self@.len() != other@.len());
            }
            return false;
        }
        let mut i: usize = 0;
        while i < self.labels.len()
            invariant
                i <= self.labels.len(),
                self.labels.len() == other.labels.len(),
                forall|j: int| 0 <= j < i ==> self@[j] == other@[j],
            decreases self.labels.len() - i,
        {
            if !bytes_eq(&self.labels[i], &other.labels[i]) {
                proof {
                    assert(self@[i as int] == self.labels@[i as int]@);
                    assert(other@[i as int] == other.labels@[i as int]@);
                }
                return false;
            }
            i = i + 1;
        }
        proof {
            assert(self@ =~= other@);
        }
        true
    }

    /// Whether this name lies at or below `other`.
    pub fn is_subdomain(&self, other: &Name) -> (r: bool)
        ensures
            r == is_subdomain_of(self@, other@),
    {
        let n = self.labels.len();
        let m = other.labels.len();
        if m > n {
            return false;
        }
        let off = n - m;
        let mut i: usize = 0;
        while i < m
            invariant
                i <= m,
                m <= n,
                off == n - m,
                n == self@.len(),
                m == other@.len(),
                forall|j: int| 0 <= j < i ==> self@[off + j] == other@[j],
            decreases m - i,
        {
            if !bytes_eq(&self.labels[off + i], &other.labels[i]) {
                proof {
                    assert(self@[off + i] == self.labels@[off + i]@);
                    assert(other@[i as int] == other.labels@[i as int]@);
                    assert(self@.subrange(n - m, n as int)[i as int] != other@[i as int]);
                }
                return false;
            }
            i = i + 1;
        }
        proof {
            assert(self@.subrange(n - m, n as int) =~= other@);
        }
        true
    }

    /// Whether the leftmost label is `*`.
    pub fn is_wildcard(&self) -> (r: bool)
        ensures
            r == is_wildcard_name(self@),
    {
        if self.labels.len() == 0 {
            return false;
        }
        let l = &self.labels[0];
        let r = l.len() == 1 && l[0] == 42u8;
        proof {
            assert(self@[0] == l@);
            if r {
                assert(l@ =~= star_label());
            } else {
                assert(l@ != star_label());
            }
        }
        r
    }

    /// The ancestor made of the last `depth` labels.
    pub fn ancestor(&self, depth: usize) -> (r: Name)
        requires
            depth <= self@.len(),
        ensures
            r@ == ancestor_at(self@, depth as int),
    {
        let n = self.labels.len();
        let mut out: Vec<Vec<u8>> = Vec::new();
        let mut i: usize = n - depth;
        while i < n
            invariant
                depth <= n,
                n - depth <= i <= n,
                n == self@.len(),
                labels_view(out@) == self@.subrange(n - depth, i as int),
            decreases n - i,
        {
            let l = copy_bytes(&self.labels[i]);
            proof {
                lemma_labels_view_push(out@, l);
                assert(l@ == self@[i as int]);
            }
            out.push(l);
            proof {
                assert(labels_view(out@) =~= self@.subrange(n - depth, i + 1));
            }
            i = i + 1;
        }
        Name { labels: out }
    }

    /// The parent name: this name without its leftmost label.
    pub fn parent(&self) -> (r: Name)
        requires
            self@.len() > 0,
        ensures
            r@ == self@.drop_first(),
    {
        let r = self.ancestor(self.labels.len() - 1);
        assert(r@ =~= self@.drop_first());
        r
    }

    /// The wildcard name `*.<self>`.
    pub fn wildcard_child(&self) -> (r: Name)
        ensures
            r@ == wildcard_of(self@),
    {
        let mut out: Vec<Vec<u8>> = Vec::new();
        let mut star: Vec<u8> = Vec::new();
        star.push(42u8);
        out.push(star);
        let mut i: usize = 0;
        while i < self.labels.len()
            invariant
                i <= self.labels.len(),
                labels_view(out@) == wildcard_of(self@.subrange(0, i as int)),
            decreases self.labels.len() - i,
        {
            let l = copy_bytes(&self.labels[i]);
            proof {
                lemma_labels_view_push(out@, l);
                assert(l@ == self@[i as int]);
            }
            out.push(l);
            proof {
                assert(labels_view(out@) =~= wildcard_of(self@.subrange(0, i + 1)));
            }
            i = i + 1;
        }
        proof {
            assert(self@.subrange(0, self@.len() as int) == self@);
        }
        Name { labels: out }
    }
}

} // verus!
