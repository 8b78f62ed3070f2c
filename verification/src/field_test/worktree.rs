//! Throwaway `git worktree`s that isolate analysis from the corpus
//! repositories it inspects.
use vstd::prelude::*;

verus! {

/// A throwaway worktree of `repo` checked out at a pinned commit in `dir`.
#[derive(Debug)]
pub struct Worktree {
    repo: String,
    dir: String,
}

/// `git worktree add` failed; its standard error.
#[derive(Debug)]
pub struct WorktreeFailure {
    pub stderr: String,
}

impl Worktree {
    pub closed spec fn repo_view(&self) -> Seq<char> {
        self.repo@
    }

    pub closed spec fn dir_view(&self) -> Seq<char> {
        self.dir@
    }

    /// Arguments of the `git worktree add` that checks `pin` out into `dir`.
    pub fn add_args(dir: &str, pin: &str) -> (args: Vec<String>)
        ensures
            args@.len() == 6,
            args@[0]@ == "worktree"@,
            args@[1]@ == "add"@,
            args@[2]@ == "--detach"@,
            args@[3]@ == "--quiet"@,
            args@[4]@ == dir@,
            args@[5]@ == pin@,
    {
        let mut args: Vec<String> = Vec::new();
        args.push(String::from_str("worktree"));
        args.push(String::from_str("add"));
        args.push(String::from_str("--detach"));
        args.push(String::from_str("--quiet"));
        args.push(dir.to_owned());
        args.push(pin.to_owned());
        args
    }

    /// Arguments of the `git worktree remove` that discards `dir`.
    pub fn remove_args(&self) -> (args: Vec<String>)
        ensures
            args@.len() == 4,
            args@[0]@ == "worktree"@,
            args@[1]@ == "remove"@,
            args@[2]@ == "--force"@,
            args@[3]@ == self.dir_view(),
    {
        let mut args: Vec<String> = Vec::new();
        args.push(String::from_str("worktree"));
        args.push(String::from_str("remove"));
        args.push(String::from_str("--force"));
        args.push(self.dir.clone());
        args
    }

    /// The worktree that a `git worktree add` with `add_args` produced, or
    /// the failure it reported: no worktree value exists for a failed add.
    pub fn add(repo: &str, dir: &str, outcome: Result<(), String>) -> (r: Result<Worktree, WorktreeFailure>)
        ensures
            match outcome {
                Ok(()) => r matches Ok(w) && w.repo_view() == repo@ && w.dir_view() == dir@,
                Err(e) => r matches Err(f) && f.stderr@ == e@,
            },
    {
        match outcome {
            Ok(()) => Ok(Worktree { repo: repo.to_owned(), dir: dir.to_owned() }),
            Err(e) => Err(WorktreeFailure { stderr: e }),
        }
    }

    pub fn path(&self) -> (p: &str)
        ensures
            p@ == self.dir_view(),
    {
        self.dir.as_str()
    }

    pub fn repo(&self) -> (p: &str)
        ensures
            p@ == self.repo_view(),
    {
        self.repo.as_str()
    }
}

} // verus!
