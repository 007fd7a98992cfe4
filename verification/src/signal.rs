//! The builds that are running, so that they can be stopped when the user interrupts.
use vstd::prelude::*;

verus! {

/// A build that is running.
#[derive(Debug, Clone, PartialEq, Eq)]
pub struct ActiveInstall {
    pub pid: u32,
    pub library: String,
    pub package_name: String,
}

/// A build that is running, as a mathematical value.
pub struct ActiveView {
    pub pid: u32,
    pub library: Seq<char>,
    pub package_name: Seq<char>,
}

impl View for ActiveInstall {
    type V = ActiveView;

    open spec fn view(&self) -> ActiveView {
        ActiveView { pid: self.pid, library: self.library@, package_name: self.package_name@ }
    }
}

pub open spec fn active_views(s: Seq<ActiveInstall>) -> Seq<ActiveView> {
    s.map_values(|a: ActiveInstall| a@)
}

/// The builds that are running, in the order in which they were started.
#[derive(Debug)]
pub struct ActiveInstalls {
    running: Vec<ActiveInstall>,
}

impl View for ActiveInstalls {
    type V = Seq<ActiveView>;

    closed spec fn view(&self) -> Seq<ActiveView> {
        active_views(self.running@)
    }
}

/// The builds without those of a process.
pub open spec fn without_pid(s: Seq<ActiveView>, pid: u32) -> Seq<ActiveView> {
    s.filter(|a: ActiveView| a.pid != pid)
}

impl ActiveInstalls {
    /// No build is running.
    pub fn new() -> (r: Self)
        ensures
            r@ == Seq::<ActiveView>::empty(),
    {
        let r = ActiveInstalls { running: Vec::new() };
        assert(r@ == Seq::<ActiveView>::empty());
        r
    }

    /// A build was started.
    pub fn register(&mut self, info: ActiveInstall)
        ensures
            final(self)@ == old(self)@.push(info@),
    {
        let ghost before = self.running@;
        self.running.push(info);
        assert(active_views(self.running@) == active_views(before).push(info@));
    }

    /// The build of a process has ended.
    pub fn unregister(&mut self, pid: u32)
        ensures
            final(self)@ == without_pid(old(self)@, pid),
    {
        let ghost all = self@;
        let ghost keep = |a: ActiveView| a.pid != pid;
        let mut kept: Vec<ActiveInstall> = Vec::new();
        let mut i: usize = 0;
        proof {
            reveal(Seq::filter);
            assert(all.take(0).filter(keep) == Seq::<ActiveView>::empty());
            assert(active_views(kept@) == Seq::<ActiveView>::empty());
        }
        while i < self.running.len()
            invariant
                i <= self.running@.len(),
                all == active_views(self.running@),
                keep == (|a: ActiveView| a.pid != pid),
                active_views(kept@) == all.take(i as int).filter(keep),
            decreases self.running@.len() - i,
        {
            proof {
                reveal(Seq::filter);
                assert(all[i as int] == self.running@[i as int]@);
                assert(all.take(i + 1).drop_last() == all.take(i as int));
            }
            let a = &self.running[i];
            if a.pid != pid {
                let ghost before = kept@;
                kept.push(
                    ActiveInstall {
                        pid: a.pid,
                        library: a.library.as_str().to_owned(),
                        package_name: a.package_name.as_str().to_owned(),
                    },
                );
                assert(active_views(kept@) == active_views(before).push(all[i as int]));
            }
            i += 1;
        }
        assert(all.take(i as int) == all);
        self.running = kept;
    }

    /// The builds that are running. None is registered afterwards, so each is stopped
    /// once.
    pub fn drain(&mut self) -> (r: Vec<ActiveInstall>)
        ensures
            active_views(r@) == old(self)@,
            final(self)@ == Seq::<ActiveView>::empty(),
    {
        let mut taken: Vec<ActiveInstall> = Vec::new();
        std::mem::swap(&mut taken, &mut self.running);
        assert(active_views(self.running@) == Seq::<ActiveView>::empty());
        taken
    }
}

/// After a build has ended no build of its process is registered, and no other is lost.
pub proof fn ended_builds_are_gone(s: Seq<ActiveView>, pid: u32)
    ensures
        forall|i: int| 0 <= i < without_pid(s, pid).len() ==> (#[trigger] without_pid(s, pid)[i]).pid != pid,
        forall|a: ActiveView| s.contains(a) && a.pid != pid ==> #[trigger] without_pid(s, pid).contains(a),
    decreases s.len(),
{
    reveal(Seq::filter);
    let keep = |a: ActiveView| a.pid != pid;
    if s.len() > 0 {
        let f = s.drop_last();
        ended_builds_are_gone(f, pid);
        let kept = without_pid(f, pid);
        let out = without_pid(s, pid);
        assert(out == (if keep(s.last()) {
            kept.push(s.last())
        } else {
            kept
        }));
        assert forall|a: ActiveView| s.contains(a) && a.pid != pid implies #[trigger] out.contains(a) by {
            if f.contains(a) {
                let k = kept.index_of(a);
                assert(kept.contains(a));
                assert(out[k] == a);
            } else {
                let k = s.index_of(a);
                if k < s.len() - 1 {
                    assert(f[k] == a);
                }
                assert(a == s.last());
                assert(out[kept.len() as int] == a);
            }
        }
    }
}

} // verus!
