//! Locating the external programs (`chdman`, 7-Zip, the format helper) to run.

use vstd::prelude::*;
use crate::text::chars_of;

verus! {

broadcast use vstd::string::group_string_axioms;

/// `s` ends with `suffix`.
pub open spec fn ends_with(s: Seq<char>, suffix: Seq<char>) -> bool {
    s.len() >= suffix.len() && s.skip(s.len() - suffix.len()) == suffix
}

/// The file name of the program `name`: on Windows `.exe` is appended unless the
/// name already ends with it.
pub open spec fn spec_executable_name(name: Seq<char>, windows: bool) -> Seq<char> {
    if windows && !ends_with(name, ".exe"@) {
        name + ".exe"@
    } else {
        name
    }
}

/// The file name of the program `name` on a Windows or other system.
pub fn executable_name(name: &str, windows: bool) -> (s: String)
    ensures
        s@ == spec_executable_name(name@, windows),
{
    let mut s = name.to_owned();
    if windows {
        let cs = chars_of(name);
        let suffix = chars_of(".exe");
        proof {
            reveal_strlit(".exe");
        }
        assert(suffix@.len() == 4);
        let mut has_suffix = cs.len() >= 4;
        if has_suffix {
            let base = cs.len() - 4;
            let mut k: usize = 0;
            while k < 4
                invariant
                    suffix@ == ".exe"@,
                    suffix@.len() == 4,
                    cs@ == name@,
                    cs@.len() <= usize::MAX,
                    cs@.len() >= 4,
                    base == cs@.len() - 4,
                    k <= 4,
                    has_suffix == forall|m: int| 0 <= m < k ==> cs@[base + m] == suffix@[m],
                decreases 4 - k,
            {
                if cs[base + k] != suffix[k] {
                    has_suffix = false;
                }
                k = k + 1;
            }
            proof {
                if has_suffix {
                    assert(cs@.skip(base as int) =~= ".exe"@);
                } else {
                    let m = choose|m: int| 0 <= m < 4 && cs@[base + m] != suffix@[m];
                    assert(cs@.skip(base as int)[m] != ".exe"@[m]);
                }
            }
        }
        if !has_suffix {
            s.append(".exe");
        }
    }
    s
}

/// On Windows a program's file name always ends in `.exe`, which is added only when
/// it is missing; elsewhere the name is used as it is.
pub proof fn law_executable_names(name: Seq<char>, windows: bool)
    ensures
        !windows ==> spec_executable_name(name, windows) == name,
        windows ==> {
            let s = spec_executable_name(name, windows);
            &&& s.len() >= 4 && s[s.len() - 4] == '.' && s[s.len() - 3] == 'e' && s[s.len() - 2] == 'x'
                && s[s.len() - 1] == 'e'
            &&& s == name || s == name + seq!['.', 'e', 'x', 'e']
            &&& (name.len() >= 4 && name[name.len() - 4] == '.' && name[name.len() - 3] == 'e' && name[name.len()
                - 2] == 'x' && name[name.len() - 1] == 'e') ==> s == name
        },
{
    reveal_strlit(".exe");
    if windows {
        let s = spec_executable_name(name, windows);
        assert(".exe"@ =~= seq!['.', 'e', 'x', 'e']);
        if ends_with(name, ".exe"@) {
            let t = name.skip(name.len() - 4);
            assert(t[0] == name[name.len() - 4] && t[1] == name[name.len() - 3] && t[2] == name[name.len() - 2]
                && t[3] == name[name.len() - 1]);
        } else {
            assert(s[s.len() - 4] == ".exe"@[0] && s[s.len() - 3] == ".exe"@[1] && s[s.len() - 2] == ".exe"@[2]
                && s[s.len() - 1] == ".exe"@[3]);
            if name.len() >= 4 && name[name.len() - 4] == '.' && name[name.len() - 3] == 'e' && name[name.len() - 2]
                == 'x' && name[name.len() - 1] == 'e' {
                assert(name.skip(name.len() - 4) =~= ".exe"@);
            }
        }
    }
}

/// `is_file` was asked whether the file `name` exists in root `root` and could have
/// answered `answer`.
pub open spec fn probed<F: Fn(usize, &str) -> bool>(is_file: F, root: usize, name: Seq<char>, answer: bool) -> bool {
    exists|x: &str| x@ == name && call_ensures(is_file, (root, x), answer)
}

/// The candidate `(root, k)` comes before `(r, n)`: roots are searched in order, and
/// within a root the names in order.
pub open spec fn before(root: int, k: int, r: int, n: int) -> bool {
    root < r || (root == r && k < n)
}

/// Finds the first program among `names` present in one of `root_count` directories,
/// searched in order (every name in the first root, then every name in the next);
/// `is_file(root, file_name)` tells whether the file exists there. Returns the root
/// and the file name found.
pub fn find_command<F: Fn(usize, &str) -> bool>(
    root_count: usize,
    names: &[&str],
    windows: bool,
    is_file: F,
) -> (found: Option<(usize, String)>)
    requires
        forall|r: usize, x: &str| call_requires(is_file, (r, x)),
    ensures
        match found {
            Some((r, f)) => r < root_count && exists|n: int|
                0 <= n < names@.len() && f@ == spec_executable_name(names@[n]@, windows) && probed(
                    is_file,
                    r,
                    f@,
                    true,
                ) && forall|root: int, k: int|
                    0 <= root < root_count && 0 <= k < names@.len() && before(root, k, r as int, n)
                        ==> #[trigger] probed(is_file, root as usize, spec_executable_name(names@[k]@, windows), false),
            None => forall|root: int, k: int|
                0 <= root < root_count && 0 <= k < names@.len() ==> #[trigger] probed(
                    is_file,
                    root as usize,
                    spec_executable_name(names@[k]@, windows),
                    false,
                ),
        },
{
    let mut root: usize = 0;
    while root < root_count
        invariant
            root <= root_count,
            forall|r: usize, x: &str| call_requires(is_file, (r, x)),
            forall|r0: int, k: int|
                0 <= r0 < root && 0 <= k < names@.len() ==> #[trigger] probed(
                    is_file,
                    r0 as usize,
                    spec_executable_name(names@[k]@, windows),
                    false,
                ),
        decreases root_count - root,
    {
        let mut k: usize = 0;
        while k < names.len()
            invariant
                root < root_count,
                k <= names@.len(),
                forall|r: usize, x: &str| call_requires(is_file, (r, x)),
                forall|r0: int, k0: int|
                    0 <= r0 < root && 0 <= k0 < names@.len() ==> #[trigger] probed(
                        is_file,
                        r0 as usize,
                        spec_executable_name(names@[k0]@, windows),
                        false,
                    ),
                forall|k0: int|
                    0 <= k0 < k ==> #[trigger] probed(
                        is_file,
                        root,
                        spec_executable_name(names@[k0]@, windows),
                        false,
                    ),
            decreases names@.len() - k,
        {
            let file = executable_name(names[k], windows);
            let fs = file.as_str();
            let present = is_file(root, fs);
            assert(call_ensures(is_file, (root, fs), present));
            if present {
                assert(probed(is_file, root, file@, true));
                assert forall|r0: int, k0: int|
                    0 <= r0 < root_count && 0 <= k0 < names@.len() && before(r0, k0, root as int, k as int)
                        implies #[trigger] probed(is_file, r0 as usize, spec_executable_name(names@[k0]@, windows), false) by {
                    if r0 == root {
                        assert(r0 as usize == root);
                    }
                }
                return Some((root, file));
            }
            assert(probed(is_file, root, spec_executable_name(names@[k as int]@, windows), false));
            k = k + 1;
        }
        assert forall|r0: int, k0: int|
            0 <= r0 < root + 1 && 0 <= k0 < names@.len() implies #[trigger] probed(
                is_file,
                r0 as usize,
                spec_executable_name(names@[k0]@, windows),
                false,
            ) by {
            if r0 == root {
                assert(r0 as usize == root);
            }
        }
        root = root + 1;
    }
    None
}

} // verus!
