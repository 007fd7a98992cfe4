//! What the environment variables of this tool mean.
use vstd::prelude::*;

use crate::text::{chars_of, cut_once, is_text, lower, lowered, opt_str, opt_view, pieces, slice_views, split, split_once,
    string_of, strip_prefix, trim, trimmed, without_prefix};

verus! {

/// The value of a variable; one that holds only white space counts as not set.
pub open spec fn set_value(v: Option<Seq<char>>) -> Option<Seq<char>> {
    match v {
        Some(v) => if trim(v).len() == 0 {
            None
        } else {
            Some(v)
        },
        None => None,
    }
}

/// The value of a variable; see [`set_value`].
pub fn read_env_var(value: Option<&str>) -> (r: Option<String>)
    ensures
        opt_view(r) == set_value(opt_str(value)),
{
    match value {
        Some(v) => {
            let cs = chars_of(v);
            if trimmed(cs.as_slice()).len() == 0 {
                None
            } else {
                Some(v.to_owned())
            }
        },
        None => None,
    }
}

/// A directory that a variable names, else the default.
pub fn dir_or_default(value: Option<&str>, default: Option<&str>) -> (r: Option<String>)
    ensures
        opt_view(r) == (match set_value(opt_str(value)) {
            Some(v) => Some(v),
            None => opt_str(default),
        }),
{
    match read_env_var(value) {
        Some(v) => Some(v),
        None => match default {
            Some(d) => Some(d.to_owned()),
            None => None,
        },
    }
}

/// A switch: words that turn it on and words that turn it off, in any case and with
/// white space around them.
pub open spec fn switch(v: Seq<char>) -> Option<bool> {
    let w = lower(trim(v));
    if w == "1"@ || w == "true"@ || w == "yes"@ || w == "on"@ {
        Some(true)
    } else if w == "0"@ || w == "false"@ || w == "no"@ || w == "off"@ {
        Some(false)
    } else {
        None
    }
}

/// Whether the prompt shows the name of the project, where the variable
/// `UVR_ACTIVATE_PROMPT` says so.
pub fn activate_prompt(value: Option<&str>) -> (r: Option<bool>)
    ensures
        r == (match opt_str(value) {
            Some(v) => if trim(v).len() == 0 {
                None
            } else {
                switch(v)
            },
            None => None,
        }),
{
    let raw = match read_env_var(value) {
        Some(v) => v,
        None => {
            return None;
        },
    };
    let cs = chars_of(raw.as_str());
    let l = lowered(trimmed(cs.as_slice()));
    let w = l.as_slice();
    if is_text(w, "1") || is_text(w, "true") || is_text(w, "yes") || is_text(w, "on") {
        Some(true)
    } else if is_text(w, "0") || is_text(w, "false") || is_text(w, "no") || is_text(w, "off") {
        Some(false)
    } else {
        None
    }
}

/// Whether R reads the environment file of the user, by the variable
/// `UVR_USER_ENVIRON`.
pub fn user_environ(value: Option<&str>) -> (r: bool)
    ensures
        r == (value matches Some(v) && (v@ == "1"@ || v@ == "true"@ || v@ == "yes"@ || v@ == "TRUE"@ || v@ == "YES"@)),
{
    match value {
        Some(v) => {
            let cs = chars_of(v);
            let s = cs.as_slice();
            is_text(s, "1") || is_text(s, "true") || is_text(s, "yes") || is_text(s, "TRUE") || is_text(s, "YES")
        },
        None => false,
    }
}

/// A repository that the environment names.
#[derive(Debug, Clone, PartialEq, Eq)]
pub struct EnvRepo {
    pub name: String,
    pub url: String,
}

/// A repository that the environment names, as a mathematical value.
pub struct EnvRepoView {
    pub name: Seq<char>,
    pub url: Seq<char>,
}

impl View for EnvRepo {
    type V = EnvRepoView;

    open spec fn view(&self) -> EnvRepoView {
        EnvRepoView { name: self.name@, url: self.url@ }
    }
}

/// A text in lower case.
pub uninterp spec fn lowercase(s: Seq<char>) -> Seq<char>;

/// Every character is ASCII.
pub open spec fn is_ascii_text(s: Seq<char>) -> bool {
    forall|i: int| 0 <= i < s.len() ==> (#[trigger] s[i]) as u32 <= 0x7f
}

/// `str::to_lowercase`. It depends on the text alone, and of a text that is ASCII it
/// changes the letters only.
#[verifier::external_body]
fn to_lowercase(s: &str) -> (r: String)
    ensures
        r@ == lowercase(s@),
        is_ascii_text(s@) ==> r@ == lower(s@),
{
    s.to_lowercase()
}

/// The host in an address, without its port.
pub open spec fn host_of(url: Seq<char>) -> Seq<char> {
    let rest = if let Some(r) = strip_prefix(url, "https://"@) {
        r
    } else if let Some(r) = strip_prefix(url, "http://"@) {
        r
    } else {
        url
    };
    let with_port = match split_once(rest, '/') {
        Some((h, _)) => h,
        None => rest,
    };
    split(with_port, ':')[0]
}

/// The name of a repository: its host in lower case, or the address where it has none.
pub open spec fn name_of(url: Seq<char>) -> Seq<char> {
    if host_of(url).len() == 0 {
        url
    } else {
        lowercase(host_of(url))
    }
}

/// The host in an address; see [`host_of`].
pub fn host_in_url(url: &str) -> (r: String)
    ensures
        r@ == host_of(url@),
{
    let cs = chars_of(url);
    let s = cs.as_slice();
    let rest = match without_prefix(s, "https://") {
        Some(r) => r,
        None => match without_prefix(s, "http://") {
            Some(r) => r,
            None => s,
        },
    };
    let with_port = match cut_once(rest, '/') {
        Some((h, _)) => h,
        None => rest,
    };
    let ps = pieces(with_port, ':');
    assert(slice_views(ps@)[0] == ps@[0]@);
    string_of(ps[0])
}

/// The name of a repository; see [`name_of`].
pub fn derive_name_from_url(url: &str) -> (r: String)
    ensures
        r@ == name_of(url@),
        is_ascii_text(host_of(url@)) && host_of(url@).len() > 0 ==> r@ == lower(host_of(url@)),
{
    let host = host_in_url(url);
    let cs = chars_of(host.as_str());
    if cs.len() == 0 {
        url.to_owned()
    } else {
        to_lowercase(host.as_str())
    }
}

/// The repositories in a list.
pub open spec fn repos_in(entries: Seq<Seq<char>>) -> Seq<EnvRepoView>
    decreases entries.len(),
{
    if entries.len() == 0 {
        seq![]
    } else {
        let front = repos_in(entries.drop_last());
        let url = trim(entries.last());
        if url.len() == 0 {
            front
        } else {
            front.push(EnvRepoView { name: name_of(url), url })
        }
    }
}

pub open spec fn repo_views(v: Seq<EnvRepo>) -> Seq<EnvRepoView> {
    v.map_values(|r: EnvRepo| r@)
}

/// The repositories that the variable `UVR_REPOS` lists, separated by commas.
pub fn repos(value: Option<&str>) -> (r: Option<Vec<EnvRepo>>)
    ensures
        ({
            let listed = match opt_str(value) {
                Some(v) => repos_in(split(trim(v), ',')),
                None => seq![],
            };
            match r {
                Some(v) => listed.len() > 0 && repo_views(v@) == listed,
                None => listed.len() == 0,
            }
        }),
{
    let raw = match value {
        Some(v) => v,
        None => {
            return None;
        },
    };
    let cs = chars_of(raw);
    let ps = pieces(trimmed(cs.as_slice()), ',');
    let ghost all = split(trim(raw@), ',');
    let mut out: Vec<EnvRepo> = Vec::new();
    let mut i: usize = 0;
    assert(all.take(0) == Seq::<Seq<char>>::empty());
    assert(repo_views(out@) == Seq::<EnvRepoView>::empty());
    while i < ps.len()
        invariant
            i <= ps@.len(),
            slice_views(ps@) == all,
            repo_views(out@) == repos_in(all.take(i as int)),
        decreases ps@.len() - i,
    {
        proof {
            assert(slice_views(ps@)[i as int] == ps@[i as int]@);
            assert(all.take(i + 1).drop_last() == all.take(i as int));
        }
        let url = trimmed(ps[i]);
        if url.len() > 0 {
            let ghost before = out@;
            let text = string_of(url);
            out.push(EnvRepo { name: derive_name_from_url(text.as_str()), url: text });
            assert(repo_views(out@) == repo_views(before).push(out@[before.len() as int]@));
        }
        i += 1;
    }
    assert(all.take(i as int) == all);
    assert(repo_views(out@).len() == out@.len());
    if out.len() == 0 {
        None
    } else {
        Some(out)
    }
}

} // verus!
