//! The environment in which a project runs R.
use vstd::prelude::*;

use crate::installer::r_cmd_install::{is_lib_dir, r_lib_dir_of, VarView};
use crate::paths::{is_parent, parent_of};
use crate::r_version::openmp::{original_profile, site_profile_env, ORIG_SITE_PROFILE_VAR};
use crate::text::{chars_of, opt_view, string_of, trim, trimmed};

verus! {

/// What separates the paths of a list.
pub open spec fn separator(windows: bool) -> Seq<char> {
    if windows {
        ";"@
    } else {
        ":"@
    }
}

/// What separates the paths of a list.
pub fn path_separator(windows: bool) -> (r: &'static str)
    ensures
        r@ == separator(windows),
{
    if windows {
        ";"
    } else {
        ":"
    }
}

/// The environment in which a project runs R, cut off from what the machine has.
#[derive(Debug, Clone, PartialEq, Eq)]
pub struct REnv {
    /// The program of R.
    pub r_binary: String,
    /// The library of the project.
    pub library: String,
    /// A library that is searched before that of the project.
    pub with_library: Option<String>,
    /// Libraries that are searched last.
    pub extra_libs: Option<String>,
    /// The profile that loads the OpenMP runtime, where R needs it.
    pub site_profile: Option<String>,
    /// The system separates the paths of a list with semicolons.
    pub windows: bool,
}

/// What the environment had before.
#[derive(Debug, Clone, PartialEq, Eq)]
pub struct Inherited {
    pub ld_library_path: Option<String>,
    pub dyld_library_path: Option<String>,
    pub r_ld_library_path: Option<String>,
    pub r_profile: Option<String>,
    /// The library of R is in the directory of its libraries.
    pub libr_present: bool,
}

/// The libraries that R searches, in order.
pub open spec fn libs_user(e: REnv) -> Seq<char> {
    let first = match e.with_library {
        Some(w) => w@ + separator(e.windows) + e.library@,
        None => e.library@,
    };
    match e.extra_libs {
        Some(x) => if trim(x@).len() == 0 {
            first
        } else {
            first + separator(e.windows) + trim(x@)
        },
        None => first,
    }
}

/// A value that a variable had, nothing where it was not set.
pub open spec fn or_nothing(v: Option<Seq<char>>) -> Seq<char> {
    match v {
        Some(v) => v,
        None => seq![],
    }
}

/// The directory of the libraries of R in front of a list. Where there is no such
/// directory, or no list, no separator comes in.
pub open spec fn lib_in_front(lib: Seq<char>, list: Option<Seq<char>>, windows: bool) -> Seq<char> {
    if lib.len() == 0 {
        or_nothing(list)
    } else if or_nothing(list).len() == 0 {
        lib
    } else {
        lib + separator(windows) + list->0
    }
}

fn put_lib_in_front(lib: &str, list: &Option<String>, windows: bool) -> (r: String)
    ensures
        r@ == lib_in_front(lib@, opt_view(*list), windows),
{
    let cs = chars_of(lib);
    match list {
        Some(l) => {
            let ls = chars_of(l.as_str());
            if cs.len() == 0 {
                l.as_str().to_owned()
            } else if ls.len() == 0 {
                lib.to_owned()
            } else {
                lib.to_owned().concat(path_separator(windows)).concat(l.as_str())
            }
        },
        None => if cs.len() == 0 {
            String::new()
        } else {
            lib.to_owned()
        },
    }
}

pub open spec fn named_views(v: Seq<(&'static str, String)>) -> Seq<VarView> {
    v.map_values(|p: (&'static str, String)| (p.0@, p.1@))
}

fn push_named(vars: &mut Vec<(&'static str, String)>, name: &'static str, value: String)
    ensures
        named_views(final(vars)@) == named_views(old(vars)@).push((name@, value@)),
{
    let ghost before = vars@;
    vars.push((name, value));
    assert(named_views(vars@) == named_views(before).push((name@, value@)));
}

/// The variables of the environment. The libraries and the environment files of the
/// machine are shut out by empty values; what is on the search path of libraries stays
/// behind those of R.
pub open spec fn all_vars(e: REnv, i: Inherited, lib: Seq<char>) -> Seq<VarView> {
    seq![
        ("R_LIBS_USER"@, libs_user(e)),
        ("R_LIBS_SITE"@, seq![]),
        ("R_LIBS"@, seq![]),
        ("DYLD_LIBRARY_PATH"@, lib_in_front(lib, opt_view(i.dyld_library_path), e.windows)),
        ("LD_LIBRARY_PATH"@, lib_in_front(lib, opt_view(i.ld_library_path), e.windows)),
        ("R_ENVIRON"@, seq![]),
        ("R_ENVIRON_USER"@, seq![]),
    ] + (if i.libr_present {
        seq![("R_LD_LIBRARY_PATH"@, lib_in_front(lib, opt_view(i.r_ld_library_path), e.windows))]
    } else {
        seq![]
    }) + (match e.site_profile {
        Some(p) => seq![
            ("R_PROFILE"@, p@),
            (ORIG_SITE_PROFILE_VAR@, original_profile(p@, opt_view(i.r_profile), e.windows)),
        ],
        None => seq![],
    })
}

impl REnv {
    /// The directory of the program of R.
    pub fn r_bin_dir(&self) -> (r: String)
        ensures
            is_parent(self.r_binary@, Some(r@)) || (is_parent(self.r_binary@, None) && r@.len() == 0),
    {
        let dir = parent_of(self.r_binary.as_str());
        assert(is_parent(self.r_binary@, opt_view(dir)));
        match dir {
            Some(p) => p,
            None => String::new(),
        }
    }

    /// The directory of the libraries of R.
    pub fn r_lib_dir(&self) -> (r: String)
        ensures
            is_lib_dir(self.r_binary@, self.windows, r@),
    {
        r_lib_dir_of(self.r_binary.as_str(), self.windows)
    }

    /// The libraries that R searches; see [`libs_user`].
    pub fn r_libs_user(&self) -> (r: String)
        ensures
            r@ == libs_user(*self),
    {
        let first = match &self.with_library {
            Some(w) => w.as_str().to_owned().concat(path_separator(self.windows)).concat(self.library.as_str()),
            None => self.library.as_str().to_owned(),
        };
        match &self.extra_libs {
            Some(x) => {
                let cs = chars_of(x.as_str());
                let t = trimmed(cs.as_slice());
                if t.len() == 0 {
                    first
                } else {
                    first.concat(path_separator(self.windows)).concat(string_of(t).as_str())
                }
            },
            None => first,
        }
    }

    /// The variables of the environment, the directory of the libraries of R being
    /// known; see [`all_vars`].
    pub fn vars_with_lib(&self, inherited: &Inherited, r_lib_dir: &str) -> (r: Vec<(&'static str, String)>)
        ensures
            named_views(r@) == all_vars(*self, *inherited, r_lib_dir@),
    {
        let mut vars: Vec<(&'static str, String)> = Vec::new();
        assert(named_views(vars@) == Seq::<VarView>::empty());
        push_named(&mut vars, "R_LIBS_USER", self.r_libs_user());
        push_named(&mut vars, "R_LIBS_SITE", String::new());
        push_named(&mut vars, "R_LIBS", String::new());
        push_named(
            &mut vars,
            "DYLD_LIBRARY_PATH",
            put_lib_in_front(r_lib_dir, &inherited.dyld_library_path, self.windows),
        );
        push_named(
            &mut vars,
            "LD_LIBRARY_PATH",
            put_lib_in_front(r_lib_dir, &inherited.ld_library_path, self.windows),
        );
        push_named(&mut vars, "R_ENVIRON", String::new());
        push_named(&mut vars, "R_ENVIRON_USER", String::new());
        let ghost a = named_views(vars@);
        assert(a == seq![
            ("R_LIBS_USER"@, libs_user(*self)),
            ("R_LIBS_SITE"@, seq![]),
            ("R_LIBS"@, seq![]),
            ("DYLD_LIBRARY_PATH"@, lib_in_front(r_lib_dir@, opt_view(inherited.dyld_library_path), self.windows)),
            ("LD_LIBRARY_PATH"@, lib_in_front(r_lib_dir@, opt_view(inherited.ld_library_path), self.windows)),
            ("R_ENVIRON"@, seq![]),
            ("R_ENVIRON_USER"@, seq![]),
        ]);
        if inherited.libr_present {
            push_named(
                &mut vars,
                "R_LD_LIBRARY_PATH",
                put_lib_in_front(r_lib_dir, &inherited.r_ld_library_path, self.windows),
            );
        }
        let ghost b = named_views(vars@);
        assert(b == a + (if inherited.libr_present {
            seq![
                ("R_LD_LIBRARY_PATH"@, lib_in_front(r_lib_dir@, opt_view(inherited.r_ld_library_path), self.windows)),
            ]
        } else {
            seq![]
        }));
        if let Some(profile) = &self.site_profile {
            let given = match &inherited.r_profile {
                Some(p) => Some(p.as_str()),
                None => None,
            };
            let pairs = site_profile_env(profile.as_str(), given, self.windows);
            push_named(&mut vars, pairs[0].0, pairs[0].1.as_str().to_owned());
            push_named(&mut vars, pairs[1].0, pairs[1].1.as_str().to_owned());
            assert(named_views(vars@) == b + seq![
                ("R_PROFILE"@, profile@),
                (ORIG_SITE_PROFILE_VAR@, original_profile(profile@, opt_view(inherited.r_profile), self.windows)),
            ]);
        } else {
            assert(b == b + Seq::<VarView>::empty());
        }
        vars
    }

    /// The variables of the environment; see [`all_vars`].
    pub fn vars(&self, inherited: &Inherited) -> (r: Vec<(&'static str, String)>)
        ensures
            exists|lib: Seq<char>|
                #[trigger] is_lib_dir(self.r_binary@, self.windows, lib) && named_views(r@) == all_vars(*self, *inherited, lib),
    {
        let lib = self.r_lib_dir();
        self.vars_with_lib(inherited, lib.as_str())
    }
}

/// The libraries and the environment files of the machine are shut out, whatever the
/// environment was.
pub proof fn machine_is_shut_out(e: REnv, i: Inherited, lib: Seq<char>)
    ensures
        ({
            let v = all_vars(e, i, lib);
            let none: Seq<char> = seq![];
            &&& v.contains(("R_LIBS_SITE"@, none))
            &&& v.contains(("R_LIBS"@, none))
            &&& v.contains(("R_ENVIRON"@, none))
            &&& v.contains(("R_ENVIRON_USER"@, none))
        }),
{
    let v = all_vars(e, i, lib);
    let none: Seq<char> = seq![];
    assert(v[1] == ("R_LIBS_SITE"@, none));
    assert(v[2] == ("R_LIBS"@, none));
    assert(v[5] == ("R_ENVIRON"@, none));
    assert(v[6] == ("R_ENVIRON_USER"@, none));
}

/// No list of libraries begins with a separator, unless it did before.
pub proof fn no_empty_directory_comes_in(lib: Seq<char>, list: Option<Seq<char>>, windows: bool)
    requires
        list is Some && list->0.len() > 0 ==> list->0[0] != separator(windows)[0],
        lib.len() > 0 ==> lib[0] != separator(windows)[0],
    ensures
        ({
            let r = lib_in_front(lib, list, windows);
            r.len() > 0 ==> r[0] != separator(windows)[0]
        }),
{
}

} // verus!
