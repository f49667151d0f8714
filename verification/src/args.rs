use vstd::prelude::*;

use crate::text::{
    chars_eq, chars_of, copy_range, in_set, lemma_trail_len_take, other_than, strip_trail, trail_len,
};

verus! {

/// The last component of the path `s`, as `Path::file_name` gives it:
/// trailing slashes and `.` components are passed over, and there is none
/// when the path is empty, a root, or ends in `..`.
pub open spec fn file_name(s: Seq<char>) -> Option<Seq<char>>
    decreases s.len(),
{
    let r = strip_trail(s, in_set(seq!['/']));
    if r.len() == 0 {
        None
    } else {
        let k = trail_len(r, other_than('/'));
        let comp = r.skip(r.len() - k);
        if comp == seq!['.'] {
            if k <= r.len() <= s.len() && r.len() - k < s.len() {
                file_name(r.take(r.len() - k))
            } else {
                None
            }
        } else if comp == seq!['.', '.'] {
            None
        } else {
            Some(comp)
        }
    }
}

/// The extension of the path `s`, as `Path::extension` gives it: what
/// follows the last `.` of the file name, unless there is no `.` or the only
/// one opens the name.
pub open spec fn extension(s: Seq<char>) -> Option<Seq<char>> {
    match file_name(s) {
        None => None,
        Some(n) => {
            let k = trail_len(n, other_than('.'));
            if k >= n.len() || k + 1 == n.len() {
                None
            } else {
                Some(n.skip(n.len() - k))
            }
        },
    }
}

/// Where the file name of `v[..end]` stands in `v`.
fn file_name_range(v: &[char], end: usize) -> (r: Option<(usize, usize)>)
    requires
        end <= v.len(),
    ensures
        r matches Some((a, b)) ==> a <= b <= end && file_name(v@.take(end as int)) == Some(
            v@.subrange(a as int, b as int),
        ),
        r is None ==> file_name(v@.take(end as int)) is None,
    decreases end,
{
    let ghost s = v@.take(end as int);
    let ghost slash = in_set(seq!['/']);
    let mut e: usize = end;
    while e > 0 && v[e - 1] == '/'
        invariant
            e <= end <= v.len(),
            s == v@.take(end as int),
            slash == in_set(seq!['/']),
            forall|j: int| e <= j < end ==> slash(#[trigger] s[j]),
        decreases e,
    {
        assert(seq!['/'].contains(v@[e - 1])) by {
            assert(seq!['/'][0] == v@[e - 1]);
        }
        e = e - 1;
    }
    proof {
        lemma_trail_len_take(s, slash, (end - e) as int);
        assert(s.take(e as int) == v@.take(e as int));
        if e > 0 {
            assert(!seq!['/'].contains(v@[e - 1]));
        }
        assert(trail_len(v@.take(e as int), slash) == 0);
    }
    let ghost r = v@.take(e as int);
    assert(r == strip_trail(s, slash));
    if e == 0 {
        return None;
    }
    let mut st: usize = e;
    while st > 0 && v[st - 1] != '/'
        invariant
            st <= e <= end <= v.len(),
            r == v@.take(e as int),
            forall|j: int| st <= j < e ==> other_than('/')(#[trigger] r[j]),
        decreases st,
    {
        st = st - 1;
    }
    proof {
        lemma_trail_len_take(r, other_than('/'), (e - st) as int);
        assert(r.take(st as int) == v@.take(st as int));
        assert(trail_len(v@.take(st as int), other_than('/')) == 0);
        assert(r.skip(st as int) == v@.subrange(st as int, e as int));
    }
    let ghost comp = v@.subrange(st as int, e as int);
    if e - st == 1 && v[st] == '.' {
        assert(comp == seq!['.']);
        let inner = file_name_range(v, st);
        proof {
            assert(r.take(st as int) == v@.take(st as int));
            match inner {
                Some((a, b)) => {},
                None => {},
            }
        }
        return match inner {
            Some((a, b)) => Some((a, b)),
            None => None,
        };
    }
    assert(comp != seq!['.']) by {
        if e - st == 1 {
            assert(comp[0] == v@[st as int]);
        }
    }
    if e - st == 2 && v[st] == '.' && v[st + 1] == '.' {
        assert(comp == seq!['.', '.']);
        return None;
    }
    assert(comp != seq!['.', '.']) by {
        if e - st == 2 {
            assert(comp[0] == v@[st as int] && comp[1] == v@[st + 1]);
        }
    }
    Some((st, e))
}

/// The extension of the path `v`, if it has one.
pub fn extension_of(v: &[char]) -> (r: Option<Vec<char>>)
    ensures
        r matches Some(x) ==> extension(v@) == Some(x@),
        r is None ==> extension(v@) is None,
{
    assert(v@.take(v@.len() as int) == v@);
    match file_name_range(v, v.len()) {
        None => None,
        Some((a, b)) => {
            let n = copy_range(v, a, b);
            let mut k: usize = 0;
            while k < n.len() && n[n.len() - 1 - k] != '.'
                invariant
                    k <= n.len(),
                    forall|j: int| n@.len() - k <= j < n@.len() ==> other_than('.')(#[trigger] n@[j]),
                decreases n.len() - k,
            {
                k = k + 1;
            }
            proof {
                lemma_trail_len_take(n@, other_than('.'), k as int);
                if k < n.len() {
                    assert(!other_than('.')(n@[n.len() - k - 1]));
                }
                assert(trail_len(n@.take(n.len() - k), other_than('.')) == 0);
            }
            if k >= n.len() || k + 1 == n.len() {
                None
            } else {
                Some(copy_range(n.as_slice(), n.len() - k, n.len()))
            }
        },
    }
}

/// Whether the path `path` has the extension `ext`.
pub fn has_extension(path: &str, ext: &[char]) -> (b: bool)
    ensures
        b == (extension(path@) == Some(ext@)),
{
    let v = chars_of(path);
    match extension_of(v.as_slice()) {
        Some(x) => chars_eq(x.as_slice(), ext),
        None => false,
    }
}

/// Why the command line was refused.
#[derive(PartialEq, Eq, Structural, Debug, Clone, Copy)]
pub enum ArgumentError {
    /// There was not exactly one argument after the program's name.
    WrongArgumentCount,
    /// The path does not end in `.asm`.
    NotAsmFile,
    /// No `.jack` file was found under the path.
    NoJackFiles,
}

impl ArgumentError {
    /// The text that reports the error, as characters.
    pub open spec fn report(&self) -> Seq<char> {
        match *self {
            ArgumentError::WrongArgumentCount => "Please enter a file path as an argument to the program."@,
            ArgumentError::NotAsmFile => "Please enter a file path that is of *.asm type to the program."@,
            ArgumentError::NoJackFiles => "Please ensure the file path entered has files of extension type *.jack"@,
        }
    }

    /// The text that reports the error to the user.
    pub fn message(&self) -> (m: &'static str)
        ensures
            m@ == self.report(),
    {
        match self {
            ArgumentError::WrongArgumentCount => "Please enter a file path as an argument to the program.",
            ArgumentError::NotAsmFile => "Please enter a file path that is of *.asm type to the program.",
            ArgumentError::NoJackFiles => "Please ensure the file path entered has files of extension type *.jack",
        }
    }
}

/// The characters `asm`.
pub open spec fn asm_extension() -> Seq<char> {
    seq!['a', 's', 'm']
}

/// The characters `jack`.
pub open spec fn jack_extension() -> Seq<char> {
    seq!['j', 'a', 'c', 'k']
}

/// The path of the assembly file named on the command line `args` (the
/// program's name, then one path with the extension `asm`).
pub fn check_valid_asm_file(args: &[String]) -> (r: Result<&String, ArgumentError>)
    ensures
        args@.len() != 2 ==> r == Err::<&String, ArgumentError>(ArgumentError::WrongArgumentCount),
        args@.len() == 2 && extension(args@[1]@) != Some(asm_extension()) ==> r == Err::<
            &String,
            ArgumentError,
        >(ArgumentError::NotAsmFile),
        args@.len() == 2 && extension(args@[1]@) == Some(asm_extension()) ==> r == Ok::<
            &String,
            ArgumentError,
        >(&args@[1]),
{
    if args.len() != 2 {
        return Err(ArgumentError::WrongArgumentCount);
    }
    let ext = ['a', 's', 'm'];
    assert(ext@ == asm_extension());
    if !has_extension(args[1].as_str(), &ext) {
        return Err(ArgumentError::NotAsmFile);
    }
    Ok(&args[1])
}

/// Whether `path` names a Jack source file by its extension.
pub fn is_jack_file_name(path: &str) -> (b: bool)
    ensures
        b == (extension(path@) == Some(jack_extension())),
{
    let ext = ['j', 'a', 'c', 'k'];
    assert(ext@ == jack_extension());
    has_extension(path, &ext)
}

/// The Jack files to compile for the command line `args` (the program's
/// name, then one path), given `jack_files`, the `.jack` files found under
/// that path.
pub fn check_valid_jack_files(args: &[String], jack_files: Vec<String>) -> (r: Result<
    Vec<String>,
    ArgumentError,
>)
    ensures
        args@.len() != 2 ==> r == Err::<Vec<String>, ArgumentError>(
            ArgumentError::WrongArgumentCount,
        ),
        args@.len() == 2 && jack_files@.len() == 0 ==> r == Err::<Vec<String>, ArgumentError>(
            ArgumentError::NoJackFiles,
        ),
        args@.len() == 2 && jack_files@.len() > 0 ==> r == Ok::<Vec<String>, ArgumentError>(
            jack_files,
        ),
{
    if args.len() != 2 {
        return Err(ArgumentError::WrongArgumentCount);
    }
    if jack_files.len() == 0 {
        return Err(ArgumentError::NoJackFiles);
    }
    Ok(jack_files)
}

} // verus!
