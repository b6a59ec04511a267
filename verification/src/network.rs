//! Network addresses of the applications on the Docker network, and the
//! text of the address list.

use vstd::prelude::*;
use crate::config::AppType;
use crate::text::{chars_of, decimal, lines, lines_of, push_decimal, str_eq, string_of, trim, trim_chars, views};

verus! {

/// Where an application can be reached.
#[derive(Debug)]
pub struct NetworkAddressInfo {
    /// The application's name.
    pub app_name: String,
    /// The container's name.
    pub container_name: String,
    /// The host name on the Docker network: the application's name.
    pub network_address: String,
    /// The port inside the container.
    pub container_port: u16,
    /// The URLs nginx serves the application under; none for Internal
    /// applications.
    pub accessible_urls: Vec<String>,
}

/// The mathematical value of a `NetworkAddressInfo`.
pub struct NetworkAddressInfoView {
    pub app_name: Seq<char>,
    pub container_name: Seq<char>,
    pub network_address: Seq<char>,
    pub container_port: u16,
    pub accessible_urls: Seq<Seq<char>>,
}

impl View for NetworkAddressInfo {
    type V = NetworkAddressInfoView;

    open spec fn view(&self) -> NetworkAddressInfoView {
        NetworkAddressInfoView {
            app_name: self.app_name@,
            container_name: self.container_name@,
            network_address: self.network_address@,
            container_port: self.container_port,
            accessible_urls: views(self.accessible_urls@),
        }
    }
}

/// The URL under which nginx, on `port`, serves `route`.
pub open spec fn route_url(route: Seq<char>, port: u16) -> Seq<char> {
    "http://localhost:"@ + decimal(port as nat) + if route == seq!['/'] {
        seq![]
    } else {
        route
    }
}

/// The text of one application's addresses.
pub open spec fn info_text(info: NetworkAddressInfoView) -> Seq<char> {
    "微应用名称: "@ + info.app_name + "\n"@ + "容器名称: "@ + info.container_name + "\n"@ + "网络地址: "@
        + info.network_address + "\n"@ + "容器端口: "@ + decimal(info.container_port as nat) + "\n"@
        + if info.accessible_urls.len() == 0 {
        "访问地址: 无（内部服务）\n"@
    } else {
        "访问地址:\n"@ + url_lines(info.accessible_urls)
    }
}

/// One line per URL.
pub open spec fn url_lines(urls: Seq<Seq<char>>) -> Seq<char>
    decreases urls.len(),
{
    if urls.len() == 0 {
        seq![]
    } else {
        url_lines(urls.drop_last()) + "  - "@ + urls.last() + "\n"@
    }
}

/// The address texts of all applications, each followed by an empty line.
pub open spec fn infos_text(infos: Seq<NetworkAddressInfoView>) -> Seq<char>
    decreases infos.len(),
{
    if infos.len() == 0 {
        seq![]
    } else {
        infos_text(infos.drop_last()) + info_text(infos.last()) + "\n"@
    }
}

/// The example line telling how `from` reaches `to`.
pub open spec fn link_line(from: NetworkAddressInfoView, to: NetworkAddressInfoView) -> Seq<char> {
    "# "@ + from.app_name + " 可以通过 http://"@ + to.network_address + ":"@ + decimal(
        to.container_port as nat,
    ) + " 访问 "@ + to.app_name + "\n"@
}

/// How application `i` reaches each of the first `n` others.
pub open spec fn links_from(infos: Seq<NetworkAddressInfoView>, i: int, n: int) -> Seq<char>
    decreases n,
{
    if n <= 0 {
        seq![]
    } else {
        links_from(infos, i, n - 1) + if i != n - 1 {
            link_line(infos[i], infos[n - 1])
        } else {
            seq![]
        }
    }
}

/// How each of the first `m` applications reaches each other one.
pub open spec fn all_links(infos: Seq<NetworkAddressInfoView>, m: int) -> Seq<char>
    decreases m,
{
    if m <= 0 {
        seq![]
    } else {
        all_links(infos, m - 1) + links_from(infos, m - 1, infos.len() as int)
    }
}

/// The address list: a header with the generation time, the network and
/// the nginx entry point, the addresses of each application, and examples
/// of how the applications reach each other.
pub open spec fn network_list(
    infos: Seq<NetworkAddressInfoView>,
    network_name: Seq<char>,
    nginx_host_port: u16,
    generated_at: Seq<char>,
) -> Seq<char> {
    "# 微应用网络地址列表\n"@ + "# 生成时间: "@ + generated_at + "\n"@ + "# 网络名称: "@ + network_name + "\n"@
        + "# Nginx统一入口: http://localhost:"@ + decimal(nginx_host_port as nat) + "\n"@ + "\n"@
        + infos_text(infos) + "# 微应用间通信示例\n"@ + if infos.len() > 1 {
        all_links(infos, infos.len() as int)
    } else {
        seq![]
    }
}

/// The views of a sequence of address records.
pub open spec fn info_views(infos: Seq<NetworkAddressInfo>) -> Seq<NetworkAddressInfoView> {
    infos.map_values(|i: NetworkAddressInfo| i@)
}

impl NetworkAddressInfo {
    /// The addresses of an application: its name as host name, and a URL
    /// per route through nginx (an Internal service without routes has
    /// none). The kind does not change them: every routed application,
    /// a routed Internal service too, is proxied.
    pub fn new(
        app_name: String,
        container_name: String,
        container_port: u16,
        routes: &[String],
        nginx_host_port: u16,
        _app_type: &AppType,
    ) -> (r: Self)
        ensures
            r@.app_name == app_name@,
            r@.container_name == container_name@,
            r@.network_address == app_name@,
            r@.container_port == container_port,
            r@.accessible_urls == views(routes@).map_values(|route: Seq<char>| route_url(route, nginx_host_port)),
    {
        let network_address = app_name.clone();
        let mut urls: Vec<String> = Vec::new();
        {
            let ghost target = views(routes@).map_values(|route: Seq<char>| route_url(route, nginx_host_port));
            let mut i: usize = 0;
            while i < routes.len()
                invariant
                    i <= routes.len(),
                    target == views(routes@).map_values(|route: Seq<char>| route_url(route, nginx_host_port)),
                    views(urls@) == target.take(i as int),
                decreases routes.len() - i,
            {
                let route = &routes[i];
                let mut url = "http://localhost:".to_owned();
                push_decimal(&mut url, nginx_host_port as u64);
                let is_root = str_eq(route.as_str(), "/");
                proof {
                    assert(seq!['/'] =~= "/"@) by {
                        reveal_strlit("/");
                    }
                }
                if !is_root {
                    url.append(route.as_str());
                } else {
                    assert(url@ =~= url@ + Seq::<char>::empty());
                }
                let ghost old_urls = urls@;
                urls.push(url);
                assert(views(urls@) =~= views(old_urls).push(target[i as int]));
                assert(target.take(i + 1) =~= target.take(i as int).push(target[i as int]));
                i = i + 1;
            }
            assert(target.take(i as int) =~= target);
        }
        NetworkAddressInfo { app_name, container_name, network_address, container_port, accessible_urls: urls }
    }

    /// The text of the application's addresses.
    pub fn format(&self) -> (r: String)
        ensures
            r@ == info_text(self@),
    {
        let mut out = "微应用名称: ".to_owned();
        out.append(self.app_name.as_str());
        out.append("\n");
        out.append("容器名称: ");
        out.append(self.container_name.as_str());
        out.append("\n");
        out.append("网络地址: ");
        out.append(self.network_address.as_str());
        out.append("\n");
        out.append("容器端口: ");
        push_decimal(&mut out, self.container_port as u64);
        out.append("\n");
        let ghost head = out@;
        if self.accessible_urls.len() == 0 {
            out.append("访问地址: 无（内部服务）\n");
        } else {
            out.append("访问地址:\n");
            let ghost start = out@;
            let ghost us = views(self.accessible_urls@);
            let mut i: usize = 0;
            while i < self.accessible_urls.len()
                invariant
                    i <= self.accessible_urls.len(),
                    us == views(self.accessible_urls@),
                    out@ == start + url_lines(us.take(i as int)),
                decreases self.accessible_urls.len() - i,
            {
                assert(us.take(i + 1).drop_last() =~= us.take(i as int));
                assert(us.take(i + 1).last() == self.accessible_urls@[i as int]@);
                out.append("  - ");
                out.append(self.accessible_urls[i].as_str());
                out.append("\n");
                i = i + 1;
            }
            assert(us.take(i as int) =~= us);
        }
        out
    }
}

/// The example line telling how `from` reaches `to`.
fn link_text(from: &NetworkAddressInfo, to: &NetworkAddressInfo) -> (r: String)
    ensures
        r@ == link_line(from@, to@),
{
    let mut r = "# ".to_owned();
    r.append(from.app_name.as_str());
    r.append(" 可以通过 http://");
    r.append(to.network_address.as_str());
    r.append(":");
    push_decimal(&mut r, to.container_port as u64);
    r.append(" 访问 ");
    r.append(to.app_name.as_str());
    r.append("\n");
    r
}

/// Appends how application `i` reaches each other one.
fn push_links_from(content: &mut String, infos: &[NetworkAddressInfo], i: usize)
    requires
        i < infos@.len(),
    ensures
        final(content)@ == old(content)@ + links_from(info_views(infos@), i as int, infos@.len() as int),
{
    let ghost iv = info_views(infos@);
    let ghost row_start = content@;
    let n = infos.len();
    let mut j: usize = 0;
    while j < n
        invariant
            n == infos.len(),
            i < n,
            j <= n,
            iv == info_views(infos@),
            content@ == row_start + links_from(iv, i as int, j as int),
        decreases n - j,
    {
        if i != j {
            assert(iv[i as int] == infos@[i as int]@);
            assert(iv[j as int] == infos@[j as int]@);
            let line = link_text(&infos[i], &infos[j]);
            content.append(line.as_str());
        } else {
            assert(content@ =~= content@ + Seq::<char>::empty());
        }
        j = j + 1;
    }
}

/// The address list, with `generated_at` as its generation time.
pub fn generate_network_list(
    infos: &[NetworkAddressInfo],
    network_name: &str,
    nginx_host_port: u16,
    generated_at: &str,
) -> (r: String)
    ensures
        r@ == network_list(info_views(infos@), network_name@, nginx_host_port, generated_at@),
{
    let ghost iv = info_views(infos@);
    let mut content = "# 微应用网络地址列表\n".to_owned();
    content.append("# 生成时间: ");
    content.append(generated_at);
    content.append("\n");
    content.append("# 网络名称: ");
    content.append(network_name);
    content.append("\n");
    content.append("# Nginx统一入口: http://localhost:");
    push_decimal(&mut content, nginx_host_port as u64);
    content.append("\n");
    content.append("\n");
    let ghost head = content@;
    let mut k: usize = 0;
    while k < infos.len()
        invariant
            k <= infos.len(),
            iv == info_views(infos@),
            content@ == head + infos_text(iv.take(k as int)),
        decreases infos.len() - k,
    {
        assert(iv.take(k + 1).drop_last() =~= iv.take(k as int));
        assert(iv.take(k + 1).last() == infos@[k as int]@);
        let text = infos[k].format();
        content.append(text.as_str());
        content.append("\n");
        k = k + 1;
    }
    assert(iv.take(k as int) =~= iv);
    content.append("# 微应用间通信示例\n");
    let ghost before_links = content@;
    let n = infos.len();
    if n > 1 {
        let mut i: usize = 0;
        while i < n
            invariant
                n == infos.len(),
                i <= n,
                iv == info_views(infos@),
                content@ == before_links + all_links(iv, i as int),
            decreases n - i,
        {
            push_links_from(&mut content, infos, i);
            i = i + 1;
        }
    } else {
        assert(content@ =~= content@ + Seq::<char>::empty());
    }
    content
}

/// Whether the output of `docker network ls` names the network: some line,
/// trimmed, equals `network_name`.
pub open spec fn network_listed(output: Seq<char>, network_name: Seq<char>) -> bool {
    exists|i: int| 0 <= i < lines(output).len() && trim(#[trigger] lines(output)[i]) == network_name
}

/// Whether the output of `docker network ls` names the network exactly
/// (the filter of `docker` also matches parts of names).
pub fn network_in_listing(output: &str, network_name: &str) -> (r: bool)
    ensures
        r == network_listed(output@, network_name@),
{
    let ls = lines_of(output);
    let ghost lv = views(ls@);
    let mut i: usize = 0;
    while i < ls.len()
        invariant
            i <= ls.len(),
            lv == views(ls@),
            lv == lines(output@),
            forall|k: int| 0 <= k < i ==> trim(#[trigger] lv[k]) != network_name@,
        decreases ls.len() - i,
    {
        let cs = chars_of(ls[i].as_str());
        let t = trim_chars(&cs);
        let ts = string_of(&t);
        assert(lv[i as int] == ls@[i as int]@);
        if str_eq(ts.as_str(), network_name) {
            return true;
        }
        i = i + 1;
    }
    false
}

} // verus!

verus! {

/// The head of an address text: name, container, host name and port.
pub open spec fn info_head(info: NetworkAddressInfoView) -> Seq<char> {
    "微应用名称: "@ + info.app_name + "\n"@ + "容器名称: "@ + info.container_name + "\n"@ + "网络地址: "@
        + info.network_address + "\n"@ + "容器端口: "@ + decimal(info.container_port as nat) + "\n"@
}

/// The address text lists every URL, in order, one `  - <url>` line
/// each:
/// - with one URL it is the head, `访问地址:` and that URL's line;
/// - one more URL adds exactly one more line, for that URL, at the end,
///   so the number of listed lines is the number of URLs;
/// - with none it says the application is internal.
pub proof fn law_every_url_listed(info: NetworkAddressInfoView, u: Seq<char>)
    ensures
        info_text(NetworkAddressInfoView { accessible_urls: seq![u], ..info }) == info_head(info)
            + "访问地址:\n  - "@ + u + "\n"@,
        info.accessible_urls.len() > 0 ==> info_text(
            NetworkAddressInfoView { accessible_urls: info.accessible_urls.push(u), ..info },
        ) == info_text(info) + "  - "@ + u + "\n"@,
        info.accessible_urls.len() == 0 ==> info_text(info) == info_head(info) + "访问地址: 无（内部服务）\n"@,
{
    let one = NetworkAddressInfoView { accessible_urls: seq![u], ..info };
    assert(seq![u].drop_last() =~= Seq::<Seq<char>>::empty());
    reveal_strlit("访问地址:\n  - ");
    reveal_strlit("访问地址:\n");
    reveal_strlit("  - ");
    assert("访问地址:\n  - "@ =~= "访问地址:\n"@ + "  - "@);
    assert(url_lines(Seq::<Seq<char>>::empty()) =~= Seq::<char>::empty());
    assert(url_lines(seq![u]) =~= "  - "@ + u + "\n"@);
    assert(info_text(one) =~= info_head(info) + "访问地址:\n"@ + url_lines(seq![u]));
    assert(info_text(one) =~= info_head(info) + "访问地址:\n  - "@ + u + "\n"@);
    let more = NetworkAddressInfoView { accessible_urls: info.accessible_urls.push(u), ..info };
    assert(info.accessible_urls.push(u).drop_last() =~= info.accessible_urls);
    assert(info_text(more) =~= info_text(info) + "  - "@ + u + "\n"@ || info.accessible_urls.len() == 0);
    assert(info_text(info) =~= info_head(info) + "访问地址: 无（内部服务）\n"@ || info.accessible_urls.len() > 0);
}

} // verus!
