//! The search for the directory of R among what an archive held. An archive may have R
//! below a directory with the version in its name.
use vstd::prelude::*;

verus! {

/// How deep below the root a directory is looked at. Links may lead in circles.
pub const DEEPEST: u32 = 12;

/// The directories that are still to be looked at, the next one last, each with its
/// depth below the root.
#[derive(Debug)]
pub struct RSearch {
    pending: Vec<(String, u32)>,
}

/// Directories with their depths, as a mathematical value.
pub open spec fn dir_views(s: Seq<(String, u32)>) -> Seq<(Seq<char>, u32)> {
    s.map_values(|d: (String, u32)| (d.0@, d.1))
}

impl View for RSearch {
    type V = Seq<(Seq<char>, u32)>;

    closed spec fn view(&self) -> Seq<(Seq<char>, u32)> {
        dir_views(self.pending@)
    }
}

/// Directories at a depth, the first one last.
pub open spec fn stacked(children: Seq<Seq<char>>, depth: u32) -> Seq<(Seq<char>, u32)> {
    Seq::new(children.len(), |i: int| (children[children.len() - 1 - i], depth))
}

/// What is still to be looked at after the next directory was: the directories in it come
/// first, unless they are too deep.
pub open spec fn after_look(pending: Seq<(Seq<char>, u32)>, children: Seq<Seq<char>>) -> Seq<(Seq<char>, u32)> {
    let depth = pending.last().1;
    if depth < DEEPEST {
        pending.drop_last() + stacked(children, (depth + 1) as u32)
    } else {
        pending.drop_last()
    }
}

impl RSearch {
    /// A search that begins at a directory.
    pub fn new(root: &str) -> (r: Self)
        ensures
            r@ == seq![(root@, 0u32)],
    {
        let mut pending: Vec<(String, u32)> = Vec::new();
        pending.push((root.to_owned(), 0));
        assert(dir_views(pending@) == seq![(root@, 0u32)]);
        RSearch { pending }
    }

    /// The directory to look at next, none where the search is over.
    pub fn current(&self) -> (r: Option<&str>)
        ensures
            match r {
                Some(d) => self@.len() > 0 && d@ == self@.last().0,
                None => self@.len() == 0,
            },
    {
        let n: usize = self.pending.len();
        if n == 0 {
            None
        } else {
            assert(self@[n - 1] == (self.pending@[n - 1].0@, self.pending@[n - 1].1));
            Some(self.pending[n - 1].0.as_str())
        }
    }

    /// Goes on after the next directory was looked at: whether R is in it, and the
    /// directories in it. A directory that has R is the one looked for.
    pub fn look(&mut self, has_r: bool, children: &Vec<String>) -> (r: Option<String>)
        ensures
            old(self)@.len() == 0 ==> r is None && final(self)@ == old(self)@,
            old(self)@.len() > 0 && has_r ==> r is Some && r->0@ == old(self)@.last().0 && final(self)@ == old(
                self,
            )@.drop_last(),
            old(self)@.len() > 0 && !has_r ==> r is None && final(self)@ == after_look(
                old(self)@,
                crate::text::views(children@),
            ),
    {
        let ghost before = self.pending@;
        let ghost names = crate::text::views(children@);
        let (dir, depth) = match self.pending.pop() {
            Some(d) => d,
            None => {
                return None;
            },
        };
        let ghost rest = dir_views(self.pending@);
        assert(dir_views(before)[before.len() - 1] == (dir@, depth));
        assert(rest == dir_views(before).drop_last());
        if has_r {
            return Some(dir);
        }
        if depth < DEEPEST {
            let mut i: usize = children.len();
            assert(stacked(names, (depth + 1) as u32).take(0) == Seq::<(Seq<char>, u32)>::empty());
            while i > 0
                invariant
                    i <= children@.len(),
                    names == crate::text::views(children@),
                    depth < DEEPEST,
                    dir_views(self.pending@) == rest + stacked(names, (depth + 1) as u32).take(children@.len() - i),
                decreases i,
            {
                i -= 1;
                let ghost prev = self.pending@;
                self.pending.push((children[i].as_str().to_owned(), depth + 1));
                proof {
                    let all = stacked(names, (depth + 1) as u32);
                    assert(names[i as int] == children@[i as int]@);
                    assert(dir_views(self.pending@) == dir_views(prev).push((names[i as int], (depth + 1) as u32)));
                    assert(all.take(children@.len() - i) == all.take(children@.len() - i - 1).push(
                        all[children@.len() - i - 1],
                    ));
                }
            }
            assert(stacked(names, (depth + 1) as u32).take(children@.len() as int) == stacked(names, (depth + 1) as u32));
        }
        None
    }
}

/// No directory deeper than the limit is ever looked at.
pub proof fn search_stays_shallow(pending: Seq<(Seq<char>, u32)>, children: Seq<Seq<char>>)
    requires
        pending.len() > 0,
        forall|i: int| 0 <= i < pending.len() ==> (#[trigger] pending[i]).1 <= DEEPEST,
    ensures
        forall|i: int| 0 <= i < after_look(pending, children).len() ==> (#[trigger] after_look(pending, children)[i]).1 <= DEEPEST,
{
}

} // verus!
