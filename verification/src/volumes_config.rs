//! The volume configuration of one application
//! (`micro-app.volumes.yml`): mounts, their ownership, and the user the
//! container runs as.

use vstd::prelude::*;
use crate::error::{Error, ErrorKind};
use crate::text::{concat3, decimal, opt_view, push_decimal, views};

verus! {

/// The owner that a volume's host folder is given.
#[derive(Clone, Copy, Debug)]
pub struct VolumePermissions {
    /// The user id.
    pub uid: u32,
    /// The group id.
    pub gid: u32,
    /// Whether ownership is set on the whole tree.
    pub recursive: bool,
}

/// Ownership is set recursively unless configured otherwise.
pub fn default_recursive() -> (r: bool)
    ensures
        r,
{
    true
}

/// One mount: a host path, the path in the container, and optionally the
/// owner of the host path.
#[derive(Debug)]
pub struct VolumeConfig {
    /// The host path.
    pub source: String,
    /// The path inside the container.
    pub target: String,
    /// The owner of the host path.
    pub permissions: Option<VolumePermissions>,
}

/// The mathematical value of a `VolumeConfig`.
pub struct VolumeConfigView {
    pub source: Seq<char>,
    pub target: Seq<char>,
    pub permissions: Option<VolumePermissions>,
}

impl View for VolumeConfig {
    type V = VolumeConfigView;

    open spec fn view(&self) -> VolumeConfigView {
        VolumeConfigView { source: self.source@, target: self.target@, permissions: self.permissions }
    }
}

/// The contents of `micro-app.volumes.yml`.
#[derive(Debug)]
pub struct VolumesConfig {
    /// The mounts.
    pub volumes: Vec<VolumeConfig>,
    /// The user the container runs as (`uid:gid` or a user name).
    pub run_as_user: Option<String>,
}

/// The mathematical value of a `VolumesConfig`.
pub struct VolumesConfigView {
    pub volumes: Seq<VolumeConfigView>,
    pub run_as_user: Option<Seq<char>>,
}

impl View for VolumesConfig {
    type V = VolumesConfigView;

    open spec fn view(&self) -> VolumesConfigView {
        VolumesConfigView { volumes: volume_views(self.volumes@), run_as_user: opt_view(self.run_as_user) }
    }
}

impl VolumeConfig {
    /// A copy of the mount.
    pub fn duplicate(&self) -> (r: VolumeConfig)
        ensures
            r@ == self@,
    {
        VolumeConfig { source: self.source.clone(), target: self.target.clone(), permissions: self.permissions }
    }
}

impl VolumesConfig {
    /// A copy of the configuration.
    pub fn duplicate(&self) -> (r: VolumesConfig)
        ensures
            r@ == self@,
    {
        let mut volumes: Vec<VolumeConfig> = Vec::new();
        let mut i: usize = 0;
        while i < self.volumes.len()
            invariant
                i <= self.volumes.len(),
                volume_views(volumes@) == volume_views(self.volumes@).take(i as int),
            decreases self.volumes.len() - i,
        {
            let ghost before = volumes@;
            volumes.push(self.volumes[i].duplicate());
            assert(volume_views(volumes@) =~= volume_views(before).push(self.volumes@[i as int]@));
            assert(volume_views(self.volumes@).take(i + 1) =~= volume_views(self.volumes@).take(i as int).push(
                self.volumes@[i as int]@,
            ));
            i = i + 1;
        }
        assert(volume_views(self.volumes@).take(i as int) =~= volume_views(self.volumes@));
        VolumesConfig { volumes, run_as_user: crate::text::clone_opt(&self.run_as_user) }
    }
}

/// The views of a sequence of volume configurations.
pub open spec fn volume_views(v: Seq<VolumeConfig>) -> Seq<VolumeConfigView> {
    v.map_values(|x: VolumeConfig| x@)
}

/// What is wrong with the mount at position `index`, if anything.
pub open spec fn volume_problem(app_name: Seq<char>, index: int, v: VolumeConfigView) -> Option<Seq<char>> {
    let head = "应用 '"@ + app_name + "' 的第 "@ + decimal((index + 1) as nat);
    if v.source.len() == 0 {
        Some(head + " 个卷配置中 source 不能为空"@)
    } else if v.target.len() == 0 {
        Some(head + " 个卷配置中 target 不能为空"@)
    } else {
        None
    }
}

/// The problem of the first mount that has one.
pub open spec fn first_volume_problem(app_name: Seq<char>, vs: Seq<VolumeConfigView>) -> Option<Seq<char>>
    decreases vs.len(),
{
    if vs.len() == 0 {
        None
    } else {
        match first_volume_problem(app_name, vs.drop_last()) {
            Some(m) => Some(m),
            None => volume_problem(app_name, vs.len() - 1, vs.last()),
        }
    }
}

/// A problem found in a prefix of the mounts is the first of all.
proof fn lemma_first_volume_problem_extends(app_name: Seq<char>, vs: Seq<VolumeConfigView>, j: int)
    requires
        0 <= j <= vs.len(),
        first_volume_problem(app_name, vs.take(j)) is Some,
    ensures
        first_volume_problem(app_name, vs) == first_volume_problem(app_name, vs.take(j)),
    decreases vs.len(),
{
    if j < vs.len() {
        assert(vs.drop_last().take(j) =~= vs.take(j));
        lemma_first_volume_problem_extends(app_name, vs.drop_last(), j);
    } else {
        assert(vs.take(j) =~= vs);
    }
}

/// What `VolumesConfig::validate` finds wrong, if anything: a mount
/// without source or target, or an empty `run_as_user`.
pub open spec fn volumes_problem(
    app_name: Seq<char>,
    vs: Seq<VolumeConfigView>,
    run_as_user: Option<Seq<char>>,
) -> Option<Seq<char>> {
    match first_volume_problem(app_name, vs) {
        Some(m) => Some(m),
        None => if run_as_user == Some(Seq::<char>::empty()) {
            Some("应用 '"@ + app_name + "' 的 run_as_user 不能为空字符串"@)
        } else {
            None
        },
    }
}

/// The command that gives a mount's host path its owner.
pub open spec fn chown_command(source: Seq<char>, p: VolumePermissions) -> Seq<char> {
    (if p.recursive {
        "chown -R "@
    } else {
        "chown "@
    }) + decimal(p.uid as nat) + ":"@ + decimal(p.gid as nat) + " \""@ + source + "\""@
}

/// The ownership commands of the mounts that configure an owner, in order.
pub open spec fn chown_commands(vs: Seq<VolumeConfigView>) -> Seq<Seq<char>>
    decreases vs.len(),
{
    if vs.len() == 0 {
        seq![]
    } else {
        let before = chown_commands(vs.drop_last());
        match vs.last().permissions {
            Some(p) => before.push(chown_command(vs.last().source, p)),
            None => before,
        }
    }
}

/// The lines of `lines` joined by line breaks.
pub open spec fn join_lines(lines: Seq<Seq<char>>) -> Seq<char>
    decreases lines.len(),
{
    if lines.len() == 0 {
        seq![]
    } else if lines.len() == 1 {
        lines[0]
    } else {
        join_lines(lines.drop_last()) + "\n"@ + lines.last()
    }
}

/// The text of the script before the commands.
pub open spec fn script_head() -> Seq<char> {
    "#!/bin/sh\n# Docker 容器权限初始化脚本\n# 由 proxy-config 自动生成\n\nset -e\n\necho \"开始设置卷权限...\"\n\n"@
}

/// The text of the script after the commands.
pub open spec fn script_tail() -> Seq<char> {
    "\n\necho \"卷权限设置完成\"\n"@
}

/// The permission script for the mounts: `None` when no mount configures
/// an owner.
pub open spec fn permission_script(vs: Seq<VolumeConfigView>) -> Option<Seq<char>> {
    let commands = chown_commands(vs);
    if commands.len() == 0 {
        None
    } else {
        Some(script_head() + join_lines(commands) + script_tail())
    }
}

/// The host path and the container path of a mount, joined by `:`.
pub open spec fn compose_volume(v: VolumeConfigView) -> Seq<char> {
    v.source + ":"@ + v.target
}

/// `s` followed by a line break and `line`, or `line` alone when `first`.
fn push_line(s: &mut String, line: &str, first: bool)
    ensures
        final(s)@ == if first {
            old(s)@ + line@
        } else {
            old(s)@ + "\n"@ + line@
        },
{
    if !first {
        s.append("\n");
    }
    s.append(line);
}

impl VolumesConfig {
    /// Checks the mounts and the container user of the application
    /// `app_name`.
    pub fn validate(&self, app_name: &str) -> (r: Result<(), Error>)
        ensures
            r is Err <==> volumes_problem(app_name@, volume_views(self.volumes@), opt_view(self.run_as_user)) is Some,
            r matches Err(e) ==> e@ == (
                ErrorKind::Config,
                volumes_problem(app_name@, volume_views(self.volumes@), opt_view(self.run_as_user))->0,
            ),
    {
        let ghost vs = volume_views(self.volumes@);
        let mut i: usize = 0;
        while i < self.volumes.len()
            invariant
                i <= self.volumes.len(),
                vs == volume_views(self.volumes@),
                first_volume_problem(app_name@, vs.take(i as int)) is None,
            decreases self.volumes.len() - i,
        {
            let v = &self.volumes[i];
            assert(vs.take(i + 1).drop_last() =~= vs.take(i as int));
            assert(vs.take(i + 1).last() == v@);
            let empty_source = v.source.as_str().is_empty();
            let empty_target = v.target.as_str().is_empty();
            if empty_source || empty_target {
                let mut m = concat3("应用 '", app_name, "' 的第 ");
                push_decimal(&mut m, i as u64 + 1);
                if empty_source {
                    m.append(" 个卷配置中 source 不能为空");
                } else {
                    m.append(" 个卷配置中 target 不能为空");
                }
                proof {
                    lemma_first_volume_problem_extends(app_name@, vs, i + 1);
                }
                return Err(Error::Config(m));
            }
            i = i + 1;
        }
        assert(vs.take(i as int) =~= vs);
        if let Some(user) = &self.run_as_user {
            if user.as_str().is_empty() {
                assert(user@ =~= Seq::<char>::empty());
                return Err(Error::Config(concat3("应用 '", app_name, "' 的 run_as_user 不能为空字符串")));
            }
        }
        Ok(())
    }

    /// The shell script that gives each mount's host path its configured
    /// owner; `None` when no mount configures one.
    pub fn generate_permission_init_script(&self) -> (r: Option<String>)
        ensures
            opt_view(r) == permission_script(volume_views(self.volumes@)),
    {
        let ghost vs = volume_views(self.volumes@);
        let mut body = String::new();
        let mut count: usize = 0;
        let mut i: usize = 0;
        while i < self.volumes.len()
            invariant
                i <= self.volumes.len(),
                vs == volume_views(self.volumes@),
                count == chown_commands(vs.take(i as int)).len(),
                count <= i,
                body@ == join_lines(chown_commands(vs.take(i as int))),
            decreases self.volumes.len() - i,
        {
            let v = &self.volumes[i];
            assert(vs.take(i + 1).drop_last() =~= vs.take(i as int));
            assert(vs.take(i + 1).last() == v@);
            if let Some(p) = v.permissions {
                let mut line = if p.recursive {
                    "chown -R ".to_owned()
                } else {
                    "chown ".to_owned()
                };
                push_decimal(&mut line, p.uid as u64);
                line.append(":");
                push_decimal(&mut line, p.gid as u64);
                line.append(" \"");
                line.append(v.source.as_str());
                line.append("\"");
                assert(line@ =~= chown_command(v@.source, p));
                let ghost before = chown_commands(vs.take(i as int));
                push_line(&mut body, line.as_str(), count == 0);
                assert(before.push(line@).drop_last() =~= before);
                count = count + 1;
            }
            i = i + 1;
        }
        assert(vs.take(i as int) =~= vs);
        if count == 0 {
            return None;
        }
        let mut script = "#!/bin/sh\n# Docker 容器权限初始化脚本\n# 由 proxy-config 自动生成\n\nset -e\n\necho \"开始设置卷权限...\"\n\n".to_owned();
        script.append(body.as_str());
        script.append("\n\necho \"卷权限设置完成\"\n");
        Some(script)
    }

    /// Each mount as Docker Compose writes it: `source:target`.
    pub fn to_docker_compose_volumes(&self) -> (r: Vec<String>)
        ensures
            views(r@) == volume_views(self.volumes@).map_values(|v: VolumeConfigView| compose_volume(v)),
    {
        let ghost target = volume_views(self.volumes@).map_values(|v: VolumeConfigView| compose_volume(v));
        let mut r: Vec<String> = Vec::new();
        let mut i: usize = 0;
        while i < self.volumes.len()
            invariant
                i <= self.volumes.len(),
                target == volume_views(self.volumes@).map_values(|v: VolumeConfigView| compose_volume(v)),
                views(r@) == target.take(i as int),
            decreases self.volumes.len() - i,
        {
            let v = &self.volumes[i];
            let ghost old_r = r@;
            r.push(concat3(v.source.as_str(), ":", v.target.as_str()));
            assert(views(r@) =~= views(old_r).push(target[i as int]));
            assert(target.take(i + 1) =~= target.take(i as int).push(target[i as int]));
            i = i + 1;
        }
        assert(target.take(i as int) =~= target);
        r
    }
}

} // verus!
