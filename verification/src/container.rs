//! Containers: the arguments of `docker create`, and what the tool reads
//! from the output of `docker ps`.

use vstd::prelude::*;
use crate::text::{chars_of, decimal, push_decimal, string_of, trim, trim_chars, views};

verus! {

/// `h:c` for a host port and a container port.
pub open spec fn port_mapping(m: (u16, u16)) -> Seq<char> {
    decimal(m.0 as nat) + ":"@ + decimal(m.1 as nat)
}

/// `-p` and a mapping, for each port mapping.
pub open spec fn port_args(ms: Seq<(u16, u16)>) -> Seq<Seq<char>>
    decreases ms.len(),
{
    if ms.len() == 0 {
        seq![]
    } else {
        port_args(ms.drop_last()) + seq!["-p"@, port_mapping(ms.last())]
    }
}

/// `-e` and a variable, for each environment variable.
pub open spec fn env_args(vs: Seq<Seq<char>>) -> Seq<Seq<char>>
    decreases vs.len(),
{
    if vs.len() == 0 {
        seq![]
    } else {
        env_args(vs.drop_last()) + seq!["-e"@, vs.last()]
    }
}

/// The arguments of `docker create` for a container of `image_name` on
/// `network_name`, with its port mappings and environment variables.
pub open spec fn create_args(
    container_name: Seq<char>,
    image_name: Seq<char>,
    network_name: Seq<char>,
    port_mappings: Option<Seq<(u16, u16)>>,
    env_vars: Option<Seq<Seq<char>>>,
) -> Seq<Seq<char>> {
    seq!["create"@, "--name"@, container_name, "--network"@, network_name] + match port_mappings {
        Some(ms) => port_args(ms),
        None => seq![],
    } + match env_vars {
        Some(vs) => env_args(vs),
        None => seq![],
    } + seq![image_name]
}

/// The arguments of `docker create` (see `create_args`).
pub fn create_container_args(
    container_name: &str,
    image_name: &str,
    network_name: &str,
    port_mappings: Option<Vec<(u16, u16)>>,
    env_vars: Option<Vec<String>>,
) -> (r: Vec<String>)
    ensures
        views(r@) == create_args(
            container_name@,
            image_name@,
            network_name@,
            match port_mappings {
                Some(ms) => Some(ms@),
                None => None,
            },
            match env_vars {
                Some(vs) => Some(views(vs@)),
                None => None,
            },
        ),
{
    let mut args: Vec<String> = Vec::new();
    args.push("create".to_owned());
    args.push("--name".to_owned());
    args.push(container_name.to_owned());
    args.push("--network".to_owned());
    args.push(network_name.to_owned());
    let ghost head = views(args@);
    assert(head =~= seq!["create"@, "--name"@, container_name@, "--network"@, network_name@]);
    match &port_mappings {
        Some(ms) => {
            let mut i: usize = 0;
            while i < ms.len()
                invariant
                    i <= ms.len(),
                    views(args@) == head + port_args(ms@.take(i as int)),
                decreases ms.len() - i,
            {
                assert(ms@.take(i + 1).drop_last() =~= ms@.take(i as int));
                let (h, c) = ms[i];
                let mut m = String::new();
                push_decimal(&mut m, h as u64);
                m.append(":");
                push_decimal(&mut m, c as u64);
                let ghost before = views(args@);
                args.push("-p".to_owned());
                args.push(m);
                assert(views(args@) =~= before + seq!["-p"@, port_mapping(ms@[i as int])]);
                i = i + 1;
            }
            assert(ms@.take(i as int) =~= ms@);
        },
        None => {
            assert(views(args@) =~= head + Seq::<Seq<char>>::empty());
        },
    }
    let ghost mid = views(args@);
    match &env_vars {
        Some(vs) => {
            let ghost vv = views(vs@);
            let mut i: usize = 0;
            while i < vs.len()
                invariant
                    i <= vs.len(),
                    vv == views(vs@),
                    views(args@) == mid + env_args(vv.take(i as int)),
                decreases vs.len() - i,
            {
                assert(vv.take(i + 1).drop_last() =~= vv.take(i as int));
                assert(vv.take(i + 1).last() == vs@[i as int]@);
                let ghost before = views(args@);
                args.push("-e".to_owned());
                args.push(vs[i].clone());
                assert(views(args@) =~= before + seq!["-e"@, vs@[i as int]@]);
                i = i + 1;
            }
            assert(vv.take(i as int) =~= vv);
        },
        None => {
            assert(views(args@) =~= mid + Seq::<Seq<char>>::empty());
        },
    }
    let ghost before = views(args@);
    args.push(image_name.to_owned());
    assert(views(args@) =~= before + seq![image_name@]);
    args
}

/// The status `docker ps` reports for a container: its trimmed output,
/// or none when that is blank (no such container).
pub fn container_status(output: &str) -> (r: Option<String>)
    ensures
        match r {
            Some(s) => s@ == trim(output@) && s@.len() > 0,
            None => trim(output@).len() == 0,
        },
{
    let cs = chars_of(output);
    let t = trim_chars(&cs);
    if t.len() == 0 {
        None
    } else {
        Some(string_of(&t))
    }
}

/// Whether `s` holds `p` somewhere.
pub open spec fn contains_text(s: Seq<char>, p: Seq<char>) -> bool {
    exists|i: int| 0 <= i && i + p.len() <= s.len() && #[trigger] s.subrange(i, i + p.len()) == p
}

/// Whether the output of `docker ps` for running containers names the
/// container: its trimmed text holds the name.
pub fn container_listed(output: &str, container_name: &str) -> (r: bool)
    ensures
        r == contains_text(trim(output@), container_name@),
{
    let cs = chars_of(output);
    let t = trim_chars(&cs);
    let p = chars_of(container_name);
    if p.len() > t.len() {
        assert(!contains_text(t@, p@));
        return false;
    }
    let mut i: usize = 0;
    while i <= t.len() - p.len()
        invariant
            p.len() <= t.len(),
            t@ == trim(output@),
            p@ == container_name@,
            i <= t.len() - p.len() + 1,
            forall|k: int| 0 <= k < i ==> #[trigger] t@.subrange(k, k + p@.len()) != p@,
        decreases t.len() - i,
    {
        let mut j: usize = 0;
        let mut same = true;
        while j < p.len()
            invariant
                i + p.len() <= t.len(),
                j <= p.len(),
                same == forall|m: int| 0 <= m < j ==> t@[i + m] == p@[m],
            decreases p.len() - j,
        {
            if t[i + j] != p[j] {
                same = false;
            }
            j = j + 1;
        }
        if same {
            assert(t@.subrange(i as int, i + p@.len()) =~= p@);
            return true;
        }
        assert(t@.subrange(i as int, i + p@.len()) != p@) by {
            let m = choose|m: int| 0 <= m < p.len() && t@[i + m] != p@[m];
            assert(t@.subrange(i as int, i + p@.len())[m] == t@[i + m]);
        }
        i = i + 1;
    }
    false
}

} // verus!
