//! Image builds: the arguments of `docker build`, and what the tool reads
//! from the output of `docker load` and `docker images`.

use vstd::prelude::*;
use crate::text::{chars_of, has_prefix, lines, lines_of, starts_with, string_of, trim, trim_chars, views};

verus! {

/// The prefix of the lines of `docker load` that name a tagged image.
pub open spec fn loaded_prefix() -> Seq<char> {
    "Loaded image: "@
}

/// The image references that the lines name, in order: the rest of each
/// trimmed line that starts with `Loaded image: `.
pub open spec fn loaded_refs(ls: Seq<Seq<char>>) -> Seq<Seq<char>>
    decreases ls.len(),
{
    if ls.len() == 0 {
        seq![]
    } else {
        let t = trim(ls.last());
        if has_prefix(t, loaded_prefix()) {
            loaded_refs(ls.drop_last()).push(t.skip(loaded_prefix().len() as int))
        } else {
            loaded_refs(ls.drop_last())
        }
    }
}

/// The tagged image references in the output of `docker load`.
pub fn loaded_image_references(output: &str) -> (r: Vec<String>)
    ensures
        views(r@) == loaded_refs(lines(output@)),
{
    let ls = lines_of(output);
    let ghost lv = views(ls@);
    let prefix = chars_of("Loaded image: ");
    let mut r: Vec<String> = Vec::new();
    let mut i: usize = 0;
    while i < ls.len()
        invariant
            i <= ls.len(),
            lv == views(ls@),
            lv == lines(output@),
            prefix@ == loaded_prefix(),
            views(r@) == loaded_refs(lv.take(i as int)),
        decreases ls.len() - i,
    {
        assert(lv.take(i + 1).drop_last() =~= lv.take(i as int));
        assert(lv.take(i + 1).last() == ls@[i as int]@);
        let cs = chars_of(ls[i].as_str());
        let t = trim_chars(&cs);
        if starts_with(&t, &prefix) {
            let mut rest: Vec<char> = Vec::new();
            let mut k = prefix.len();
            while k < t.len()
                invariant
                    prefix@.len() <= k <= t@.len(),
                    rest@ == t@.subrange(prefix@.len() as int, k as int),
                decreases t.len() - k,
            {
                rest.push(t[k]);
                k = k + 1;
                assert(rest@ =~= t@.subrange(prefix@.len() as int, k as int));
            }
            assert(rest@ =~= t@.skip(prefix@.len() as int));
            let ghost before = r@;
            r.push(string_of(&rest));
            assert(views(r@) =~= views(before).push(rest@));
        }
        i = i + 1;
    }
    assert(lv.take(i as int) =~= lv);
    r
}

/// A line of an environment file that becomes a build argument: trimmed,
/// not empty, not a comment, with a `=`.
pub open spec fn build_arg_line(t: Seq<char>) -> bool {
    t.len() > 0 && t[0] != '#' && t.contains('=')
}

/// The build arguments of an environment file: each trimmed line that
/// sets a variable (`key=value`), in order.
pub open spec fn env_build_args(ls: Seq<Seq<char>>) -> Seq<Seq<char>>
    decreases ls.len(),
{
    if ls.len() == 0 {
        seq![]
    } else if build_arg_line(trim(ls.last())) {
        env_build_args(ls.drop_last()).push(trim(ls.last()))
    } else {
        env_build_args(ls.drop_last())
    }
}

/// The arguments of `docker build` for image `image_name` from
/// `dockerfile` in `build_context`: without cache when `no_cache`, with a
/// `--build-arg` for each variable of the environment file's contents
/// `env_content`, if any.
pub open spec fn build_args(
    image_name: Seq<char>,
    dockerfile: Seq<char>,
    build_context: Seq<char>,
    env_content: Option<Seq<char>>,
    no_cache: bool,
) -> Seq<Seq<char>> {
    seq!["build"@, "-t"@, image_name, "-f"@, dockerfile] + (if no_cache {
        seq!["--no-cache"@]
    } else {
        seq![]
    }) + match env_content {
        Some(c) => with_flag("--build-arg"@, env_build_args(lines(c))),
        None => seq![],
    } + seq![build_context]
}

/// Each value preceded by `flag`.
pub open spec fn with_flag(flag: Seq<char>, values: Seq<Seq<char>>) -> Seq<Seq<char>>
    decreases values.len(),
{
    if values.len() == 0 {
        seq![]
    } else {
        with_flag(flag, values.drop_last()) + seq![flag, values.last()]
    }
}

/// Whether a character vector holds `c`.
fn contains_char(v: &Vec<char>, c: char) -> (r: bool)
    ensures
        r == v@.contains(c),
{
    let mut i: usize = 0;
    while i < v.len()
        invariant
            i <= v.len(),
            forall|k: int| 0 <= k < i ==> v@[k] != c,
        decreases v.len() - i,
    {
        if v[i] == c {
            return true;
        }
        i = i + 1;
    }
    false
}

/// Appends `flag` and each argument of the environment file `content`.
fn push_env_args(args: &mut Vec<String>, content: &str)
    ensures
        views(final(args)@) == views(old(args)@) + with_flag("--build-arg"@, env_build_args(lines(content@))),
{
    let ls = lines_of(content);
    let ghost lv = views(ls@);
    let ghost start = views(args@);
    let mut i: usize = 0;
    while i < ls.len()
        invariant
            i <= ls.len(),
            lv == views(ls@),
            lv == lines(content@),
            views(args@) == start + with_flag("--build-arg"@, env_build_args(lv.take(i as int))),
        decreases ls.len() - i,
    {
        assert(lv.take(i + 1).drop_last() =~= lv.take(i as int));
        assert(lv.take(i + 1).last() == ls@[i as int]@);
        let cs = chars_of(ls[i].as_str());
        let t = trim_chars(&cs);
        if t.len() > 0 && t[0] != '#' && contains_char(&t, '=') {
            let ghost before = views(args@);
            let arg = string_of(&t);
            args.push("--build-arg".to_owned());
            args.push(arg);
            proof {
                let e = env_build_args(lv.take(i as int));
                assert(env_build_args(lv.take(i + 1)) == e.push(t@));
                assert(e.push(t@).drop_last() =~= e);
                assert(views(args@) =~= before + seq!["--build-arg"@, t@]);
            }
        }
        i = i + 1;
    }
    assert(lv.take(i as int) =~= lv);
}

/// The arguments of `docker build` (see `build_args`).
pub fn build_image_args(
    image_name: &str,
    dockerfile: &str,
    build_context: &str,
    env_content: Option<&str>,
    no_cache: bool,
) -> (r: Vec<String>)
    ensures
        views(r@) == build_args(
            image_name@,
            dockerfile@,
            build_context@,
            match env_content {
                Some(c) => Some(c@),
                None => None,
            },
            no_cache,
        ),
{
    let mut args: Vec<String> = Vec::new();
    args.push("build".to_owned());
    args.push("-t".to_owned());
    args.push(image_name.to_owned());
    args.push("-f".to_owned());
    args.push(dockerfile.to_owned());
    let ghost head = views(args@);
    assert(head =~= seq!["build"@, "-t"@, image_name@, "-f"@, dockerfile@]);
    if no_cache {
        args.push("--no-cache".to_owned());
        assert(views(args@) =~= head + seq!["--no-cache"@]);
    } else {
        assert(views(args@) =~= head + Seq::<Seq<char>>::empty());
    }
    let ghost mid = views(args@);
    match env_content {
        Some(c) => {
            push_env_args(&mut args, c);
        },
        None => {
            assert(views(args@) =~= mid + Seq::<Seq<char>>::empty());
        },
    }
    let ghost before = views(args@);
    args.push(build_context.to_owned());
    assert(views(args@) =~= before + seq![build_context@]);
    args
}

/// Whether the output of `docker images -q` names an image: it is not
/// blank.
pub fn image_listed(output: &str) -> (r: bool)
    ensures
        r == (trim(output@).len() > 0),
{
    let cs = chars_of(output);
    let t = trim_chars(&cs);
    t.len() > 0
}

} // verus!
