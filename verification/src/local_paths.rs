//! Local file paths the webview may use for file I/O.
//!
//! The backend opens the native file dialog itself and records what the user chose, with
//! the intent of the dialog (an "open" dialog grants reading, a "save" dialog grants
//! writing). A file-I/O command only accepts a path from that record, and the grant is
//! used up by the first command that uses it. Paths are compared the way `PathBuf`
//! compares them on Unix: by their components.

use vstd::prelude::*;
use crate::text::{chars_eq, owned, str_chars};
use crate::validation::{copy_range, find_char};

verus! {

/// What a grant allows.
#[derive(Clone, Copy, Debug, PartialEq, Eq, Hash, Structural)]
pub enum Intent {
    Read,
    Write,
}

/// End of the path segment that starts at `i`: the next `/`, or the end.
pub open spec fn seg_end(s: Seq<char>, i: int) -> int
    decreases s.len() - i,
{
    if i >= s.len() || s[i] == '/' {
        i
    } else {
        seg_end(s, i + 1)
    }
}

pub proof fn lemma_seg_end(s: Seq<char>, i: int)
    requires
        0 <= i <= s.len(),
    ensures
        i <= seg_end(s, i) <= s.len(),
        seg_end(s, i) < s.len() ==> s[seg_end(s, i)] == '/',
        forall|q: int| i <= q < seg_end(s, i) ==> s[q] != '/',
    decreases s.len() - i,
{
    if i < s.len() && s[i] != '/' {
        lemma_seg_end(s, i + 1);
    }
}

/// The components of the segments of `s` from `i` on. Empty segments and `.` are
/// dropped, except a `.` that begins a relative path (`at_start`).
pub open spec fn comps_from(s: Seq<char>, i: int, at_start: bool) -> Seq<Seq<char>>
    decreases s.len() + 1 - i,
{
    if i < 0 || i > s.len() {
        seq![]
    } else {
        let e = seg_end(s, i);
        let seg = s.subrange(i, e);
        let keep = seg.len() > 0 && (seg != seq!['.'] || at_start);
        let rest = if i <= e < s.len() {
            comps_from(s, e + 1, false)
        } else {
            seq![]
        };
        if keep {
            seq![seg] + rest
        } else {
            rest
        }
    }
}

/// `Path::components` on Unix. The root directory is `/`, a leading current-directory
/// component is `.`, every other component is its text.
pub open spec fn path_components(s: Seq<char>) -> Seq<Seq<char>> {
    if s.len() > 0 && s[0] == '/' {
        seq![seq!['/']] + comps_from(s, 1, false)
    } else {
        comps_from(s, 0, true)
    }
}

pub open spec fn views(v: Seq<Vec<char>>) -> Seq<Seq<char>> {
    v.map_values(|x: Vec<char>| x@)
}

/// The components of a path, as `Path::components` yields them on Unix.
pub fn components(path: &str) -> (r: Vec<Vec<char>>)
    ensures
        views(r@) == path_components(path@),
{
    let s = str_chars(path);
    let n = s.len();
    let mut acc: Vec<Vec<char>> = Vec::new();
    let mut i: usize;
    let mut at_start: bool;
    if n > 0 && s[0] == '/' {
        let mut root: Vec<char> = Vec::new();
        root.push('/');
        assert(root@ =~= seq!['/']);
        acc.push(root);
        i = 1;
        at_start = false;
        assert(views(acc@) =~= seq![seq!['/']]);
    } else {
        i = 0;
        at_start = true;
        assert(views(acc@) =~= seq![]);
    }
    loop
        invariant
            s@ == path@,
            n == s.len(),
            i <= n,
            path_components(path@) == views(acc@) + comps_from(s@, i as int, at_start),
        decreases n - i,
    {
        proof {
            lemma_seg_end(s@, i as int);
        }
        let e = match find_char(&s, '/', i) {
            Some(p) => p,
            None => n,
        };
        assert(e == seg_end(s@, i as int)) by {
            lemma_seg_end_is_first(s@, i as int, e as int);
        }
        let seg = copy_range(&s, i, e);
        let keep = seg.len() > 0 && (!(seg.len() == 1 && seg[0] == '.') || at_start);
        assert(keep == (seg@.len() > 0 && (seg@ != seq!['.'] || at_start))) by {
            if seg@.len() == 1 {
                if seg@[0] == '.' {
                    assert(seg@ =~= seq!['.']);
                }
            } else {
                assert(seg@ != seq!['.']);
            }
        }
        let ghost before = views(acc@);
        if keep {
            acc.push(seg);
            assert(views(acc@) =~= before + seq![s@.subrange(i as int, e as int)]);
        } else {
            assert(views(acc@) =~= before);
        }
        if e < n {
            i = e + 1;
            at_start = false;
        } else {
            assert(comps_from(s@, e + 1, false) =~= seq![]);
            assert(views(acc@) + comps_from(s@, (n + 1) as int, false) =~= views(acc@));
            return acc;
        }
    }
}

proof fn lemma_seg_end_is_first(s: Seq<char>, i: int, e: int)
    requires
        0 <= i <= e <= s.len(),
        e < s.len() ==> s[e] == '/',
        forall|q: int| i <= q < e ==> s[q] != '/',
    ensures
        e == seg_end(s, i),
    decreases e - i,
{
    if i < e {
        lemma_seg_end_is_first(s, i + 1, e);
    }
}

/// The recorded grants: each path (as components) with the intent it was picked for.
pub struct LocalPathGrants {
    granted: Vec<(Vec<Vec<char>>, Intent)>,
}

impl LocalPathGrants {
    /// The grants as a set of (path components, intent) pairs.
    pub closed spec fn view(&self) -> Set<(Seq<Seq<char>>, Intent)> {
        Set::new(
            |g: (Seq<Seq<char>>, Intent)|
                exists|k: int|
                    0 <= k < self.granted@.len() && #[trigger] views(self.granted@[k].0@) == g.0
                        && self.granted@[k].1 == g.1,
        )
    }

    /// No grant is recorded twice.
    pub closed spec fn wf(&self) -> bool {
        forall|a: int, b: int|
            0 <= a < b < self.granted@.len() ==> !(views(#[trigger] self.granted@[a].0@) == views(#[trigger] self.granted@[b].0@) && self.granted@[a].1 == self.granted@[b].1)
    }

    pub fn new() -> (r: Self)
        ensures
            r.wf(),
            r.view() == Set::<(Seq<Seq<char>>, Intent)>::empty(),
    {
        let r = LocalPathGrants { granted: Vec::new() };
        assert(r.view() =~= Set::<(Seq<Seq<char>>, Intent)>::empty());
        r
    }

    /// Position of the grant for these components and intent.
    fn position(&self, comps: &Vec<Vec<char>>, intent: Intent) -> (r: Option<usize>)
        ensures
            r matches Some(k) ==> k < self.granted@.len() && views(self.granted@[k as int].0@)
                == views(comps@) && self.granted@[k as int].1 == intent,
            r is None ==> forall|k: int|
                0 <= k < self.granted@.len() ==> !(views(#[trigger] self.granted@[k].0@) == views(
                    comps@,
                ) && self.granted@[k].1 == intent),
    {
        let mut k: usize = 0;
        while k < self.granted.len()
            invariant
                k <= self.granted@.len(),
                forall|q: int|
                    0 <= q < k ==> !(views(#[trigger] self.granted@[q].0@) == views(comps@)
                        && self.granted@[q].1 == intent),
            decreases self.granted@.len() - k,
        {
            if self.granted[k].1 == intent && comps_eq(&self.granted[k].0, comps) {
                return Some(k);
            }
            k = k + 1;
        }
        None
    }

    /// Records that the user picked `path` in a dialog with `intent`.
    pub fn grant(&mut self, path: &str, intent: Intent)
        requires
            old(self).wf(),
        ensures
            final(self).wf(),
            final(self).view() == old(self).view().insert((path_components(path@), intent)),
    {
        let comps = components(path);
        match self.position(&comps, intent) {
            Some(_) => {
                assert(self.view() =~= self.view().insert((path_components(path@), intent)));
            },
            None => {
                let ghost before = self.granted@;
                self.granted.push((comps, intent));
                assert(self.view() =~= old(self).view().insert((path_components(path@), intent)))
                    by {
                    assert forall|g: (Seq<Seq<char>>, Intent)|
                        self.view().contains(g) implies old(self).view().insert(
                            (path_components(path@), intent),
                        ).contains(g) by {
                        let k = choose|k: int|
                            0 <= k < self.granted@.len() && #[trigger] views(self.granted@[k].0@)
                                == g.0 && self.granted@[k].1 == g.1;
                        if k < before.len() {
                            assert(self.granted@[k] == before[k]);
                        }
                    }
                    assert forall|g: (Seq<Seq<char>>, Intent)|
                        old(self).view().insert((path_components(path@), intent)).contains(
                            g,
                        ) implies self.view().contains(g) by {
                        if g != (path_components(path@), intent) {
                            let k = choose|k: int|
                                0 <= k < before.len() && #[trigger] views(before[k].0@) == g.0
                                    && before[k].1 == g.1;
                            assert(self.granted@[k] == before[k]);
                        } else {
                            assert(views(self.granted@[before.len() as int].0@) == g.0);
                        }
                    }
                }
            },
        }
    }

    /// `Ok` if the user picked exactly this path, for this intent, through a dialog. The
    /// grant is used up.
    pub fn take(&mut self, path: &str, intent: Intent) -> (r: Result<(), String>)
        requires
            old(self).wf(),
        ensures
            final(self).wf(),
            r is Ok <==> old(self).view().contains((path_components(path@), intent)),
            final(self).view() == old(self).view().remove((path_components(path@), intent)),
            r matches Err(e) ==> e@ == "Choose the local file with the file dialog first"@,
    {
        let comps = components(path);
        match self.position(&comps, intent) {
            None => {
                assert(!self.view().contains((path_components(path@), intent)));
                assert(self.view() =~= self.view().remove((path_components(path@), intent)));
                Err(owned("Choose the local file with the file dialog first"))
            },
            Some(k) => {
                let ghost before = self.granted@;
                let ghost key = (path_components(path@), intent);
                self.granted.remove(k);
                assert(self.granted@ =~= before.remove(k as int));
                assert(self.view() =~= old(self).view().remove(key)) by {
                    assert forall|g: (Seq<Seq<char>>, Intent)|
                        self.view().contains(g) implies old(self).view().remove(key).contains(
                            g,
                        ) by {
                        let q = choose|q: int|
                            0 <= q < self.granted@.len() && #[trigger] views(self.granted@[q].0@)
                                == g.0 && self.granted@[q].1 == g.1;
                        let q2 = if q < k { q } else { q + 1 };
                        assert(self.granted@[q] == before[q2]);
                        if g == key {
                            if q2 < k {
                                assert(views(before[q2].0@) == views(before[k as int].0@));
                            } else {
                                assert(views(before[k as int].0@) == views(before[q2].0@));
                            }
                        }
                    }
                    assert forall|g: (Seq<Seq<char>>, Intent)|
                        old(self).view().remove(key).contains(g) implies self.view().contains(
                            g,
                        ) by {
                        let q = choose|q: int|
                            0 <= q < before.len() && #[trigger] views(before[q].0@) == g.0
                                && before[q].1 == g.1;
                        assert(q != k);
                        let q2 = if q < k { q } else { q - 1 };
                        assert(self.granted@[q2] == before[q]);
                    }
                }
                Ok(())
            },
        }
    }
}

/// Equality of two component lists.
fn comps_eq(a: &Vec<Vec<char>>, b: &Vec<Vec<char>>) -> (r: bool)
    ensures
        r == (views(a@) == views(b@)),
{
    if a.len() != b.len() {
        assert(views(a@).len() != views(b@).len());
        return false;
    }
    let mut i: usize = 0;
    while i < a.len()
        invariant
            a.len() == b.len(),
            i <= a.len(),
            forall|j: int| 0 <= j < i ==> a@[j]@ == b@[j]@,
        decreases a.len() - i,
    {
        if !chars_eq(&a[i], &b[i]) {
            assert(views(a@)[i as int] != views(b@)[i as int]);
            return false;
        }
        i = i + 1;
    }
    assert(views(a@) =~= views(b@));
    true
}

/// Taking a grant uses it up: a path granted once for an intent can be taken exactly
/// once for that intent, and never for the other one unless granted for it too.
pub proof fn law_grant_is_single_use(
    g: Set<(Seq<Seq<char>>, Intent)>,
    path: Seq<char>,
    intent: Intent,
    other: Intent,
)
    requires
        !g.contains((path_components(path), other)),
        other != intent,
    ensures
        g.insert((path_components(path), intent)).contains((path_components(path), intent)),
        !g.insert((path_components(path), intent)).remove(
            (path_components(path), intent),
        ).contains((path_components(path), intent)),
        !g.insert((path_components(path), intent)).contains((path_components(path), other)),
{
}

} // verus!
