//! Command-line options.
use vstd::prelude::*;
use crate::text::{
    chars_of, concat3, copy_range, push_str_chars, starts_with, starts_with_exec, str_eq, string_of,
    trim, trim_chars,
};

verus! {

#[derive(Debug, PartialEq, Eq)]
pub struct CliOptions {
    pub config_path: Option<String>,
    pub log_filter: Option<String>,
}

impl Default for CliOptions {
    fn default() -> (r: CliOptions)
        ensures
            r.config_path is None,
            r.log_filter is None,
    {
        CliOptions { config_path: None, log_filter: None }
    }
}

#[derive(Debug, PartialEq, Eq)]
pub enum CliAction {
    Run(CliOptions),
    PrintHelp,
    PrintVersion,
}

/// What the command line asks for.
pub enum CliActionView {
    Run { config_path: Option<Seq<char>>, log_filter: Option<Seq<char>> },
    PrintHelp,
    PrintVersion,
}

impl View for CliAction {
    type V = CliActionView;

    open spec fn view(&self) -> CliActionView {
        match self {
            CliAction::Run(o) => CliActionView::Run {
                config_path: o.config_path.deep_view(),
                log_filter: o.log_filter.deep_view(),
            },
            CliAction::PrintHelp => CliActionView::PrintHelp,
            CliAction::PrintVersion => CliActionView::PrintVersion,
        }
    }
}

/// `str::trim_start_matches` with a string pattern: every leading copy of `p` removed.
pub open spec fn trim_start_str(s: Seq<char>, p: Seq<char>) -> Seq<char>
    decreases s.len(),
{
    if p.len() > 0 && starts_with(s, p) {
        trim_start_str(s.skip(p.len() as int), p)
    } else {
        s
    }
}

/// An option's value, trimmed; an empty value is refused.
pub open spec fn option_value_result(option_name: Seq<char>, value: Seq<char>) -> Result<
    Seq<char>,
    Seq<char>,
> {
    if trim(value).len() == 0 {
        Err("选项 '"@ + option_name + "' 的值不能为空"@)
    } else {
        Ok(trim(value))
    }
}

pub open spec fn missing_path_message(option_name: Seq<char>) -> Seq<char> {
    "选项 '"@ + option_name + "' 需要一个配置文件路径"@
}

pub open spec fn missing_filter_message(option_name: Seq<char>) -> Seq<char> {
    "选项 '"@ + option_name + "' 需要一个日志级别或过滤器"@
}

/// The options from `args[i]` on, given what earlier arguments set. Later
/// settings of an option replace earlier ones; `-V`/`--version` stops the scan.
pub open spec fn cli_from(
    args: Seq<Seq<char>>,
    i: int,
    config_path: Option<Seq<char>>,
    log_filter: Option<Seq<char>>,
) -> Result<CliActionView, Seq<char>>
    decreases args.len() - i,
{
    if i < 0 || i >= args.len() {
        Ok(CliActionView::Run { config_path, log_filter })
    } else {
        let arg = args[i];
        if arg == "-V"@ || arg == "--version"@ {
            Ok(CliActionView::PrintVersion)
        } else if arg == "-c"@ || arg == "--config"@ {
            if i + 1 >= args.len() || starts_with(args[i + 1], seq!['-']) {
                Err(missing_path_message(arg))
            } else {
                match option_value_result(arg, args[i + 1]) {
                    Err(m) => Err(m),
                    Ok(v) => cli_from(args, i + 2, Some(v), log_filter),
                }
            }
        } else if arg == "--log-level"@ {
            if i + 1 >= args.len() || starts_with(args[i + 1], seq!['-']) {
                Err(missing_filter_message(arg))
            } else {
                match option_value_result(arg, args[i + 1]) {
                    Err(m) => Err(m),
                    Ok(v) => cli_from(args, i + 2, config_path, Some(v)),
                }
            }
        } else if starts_with(arg, "--config="@) {
            match option_value_result("--config"@, trim_start_str(arg, "--config="@)) {
                Err(m) => Err(m),
                Ok(v) => cli_from(args, i + 1, Some(v), log_filter),
            }
        } else if starts_with(arg, "-c="@) {
            match option_value_result("-c"@, trim_start_str(arg, "-c="@)) {
                Err(m) => Err(m),
                Ok(v) => cli_from(args, i + 1, Some(v), log_filter),
            }
        } else if starts_with(arg, "--log-level="@) {
            match option_value_result("--log-level"@, trim_start_str(arg, "--log-level="@)) {
                Err(m) => Err(m),
                Ok(v) => cli_from(args, i + 1, config_path, Some(v)),
            }
        } else {
            Err("未知选项 '"@ + arg + "'"@)
        }
    }
}

/// The command line's meaning: help when `-h` or `--help` appears anywhere,
/// else the options read from left to right.
pub open spec fn cli_result(args: Seq<Seq<char>>) -> Result<CliActionView, Seq<char>> {
    if exists|i: int| 0 <= i < args.len() && (#[trigger] args[i] == "-h"@ || args[i] == "--help"@) {
        Ok(CliActionView::PrintHelp)
    } else {
        cli_from(args, 0, None, None)
    }
}

pub fn parse_non_empty_option_value(option_name: &str, value: String) -> (r: Result<String, String>)
    ensures
        match r {
            Ok(v) => option_value_result(option_name@, value@) == Ok::<Seq<char>, Seq<char>>(v@),
            Err(m) => option_value_result(option_name@, value@) == Err::<Seq<char>, Seq<char>>(m@),
        },
{
    let v = chars_of(value.as_str());
    let t = trim_chars(&v);
    if t.len() == 0 {
        return Err(concat3("选项 '", option_name, "' 的值不能为空"));
    }
    Ok(string_of(&t))
}

fn trim_start_str_chars(s: &str, p: &str) -> (r: String)
    ensures
        r@ == trim_start_str(s@, p@),
{
    let v = chars_of(s);
    let pc = chars_of(p);
    let mut cur = v;
    if pc.len() == 0 {
        return string_of(&cur);
    }
    while starts_with_exec(&cur, &pc)
        invariant
            pc@ == p@,
            pc@.len() > 0,
            trim_start_str(s@, p@) == trim_start_str(cur@, p@),
        decreases cur@.len(),
    {
        cur = copy_range(&cur, pc.len(), cur.len());
    }
    string_of(&cur)
}

fn is_flag(arg: &str, short: &str, long: &str) -> (r: bool)
    ensures
        r == (arg@ == short@ || arg@ == long@),
{
    str_eq(arg, short) || str_eq(arg, long)
}

fn starts_with_str(arg: &str, prefix: &str) -> (r: bool)
    ensures
        r == starts_with(arg@, prefix@),
{
    let a = chars_of(arg);
    let p = chars_of(prefix);
    starts_with_exec(&a, &p)
}

fn value_starts_with_dash(value: &str) -> (r: bool)
    ensures
        r == starts_with(value@, seq!['-']),
{
    let a = chars_of(value);
    let mut p: Vec<char> = Vec::new();
    p.push('-');
    assert(p@ =~= seq!['-']);
    starts_with_exec(&a, &p)
}

pub fn parse_cli_args(args: Vec<String>) -> (r: Result<CliAction, String>)
    ensures
        match r {
            Ok(a) => cli_result(args.deep_view()) == Ok::<CliActionView, Seq<char>>(a@),
            Err(m) => cli_result(args.deep_view()) == Err::<CliActionView, Seq<char>>(m@),
        },
{
    let ghost av = args.deep_view();
    let mut k: usize = 0;
    while k < args.len()
        invariant
            av == args.deep_view(),
            k <= args@.len(),
            forall|j: int| 0 <= j < k ==> !(#[trigger] av[j] == "-h"@ || av[j] == "--help"@),
        decreases args@.len() - k,
    {
        if is_flag(args[k].as_str(), "-h", "--help") {
            assert(av[k as int] == args@[k as int]@);
            return Ok(CliAction::PrintHelp);
        }
        assert(av[k as int] == args@[k as int]@);
        k = k + 1;
    }
    let mut config_path: Option<String> = None;
    let mut log_filter: Option<String> = None;
    let mut i: usize = 0;
    while i < args.len()
        invariant
            av == args.deep_view(),
            i <= args@.len(),
            cli_result(av) == cli_from(av, i as int, config_path.deep_view(), log_filter.deep_view()),
        decreases args@.len() - i,
    {
        let arg = args[i].as_str();
        assert(av[i as int] == arg@);
        if is_flag(arg, "-V", "--version") {
            return Ok(CliAction::PrintVersion);
        } else if is_flag(arg, "-c", "--config") {
            if i + 1 >= args.len() || value_starts_with_dash(args[i + 1].as_str()) {
                assert(i + 1 < args@.len() ==> av[i + 1] == args@[i + 1]@);
                return Err(concat3("选项 '", arg, "' 需要一个配置文件路径"));
            }
            assert(av[i + 1] == args@[i + 1]@);
            let v = parse_non_empty_option_value(arg, args[i + 1].clone())?;
            config_path = Some(v);
            i = i + 2;
        } else if str_eq(arg, "--log-level") {
            if i + 1 >= args.len() || value_starts_with_dash(args[i + 1].as_str()) {
                assert(i + 1 < args@.len() ==> av[i + 1] == args@[i + 1]@);
                return Err(concat3("选项 '", arg, "' 需要一个日志级别或过滤器"));
            }
            assert(av[i + 1] == args@[i + 1]@);
            let v = parse_non_empty_option_value(arg, args[i + 1].clone())?;
            log_filter = Some(v);
            i = i + 2;
        } else if starts_with_str(arg, "--config=") {
            let v = parse_non_empty_option_value("--config", trim_start_str_chars(arg, "--config="))?;
            config_path = Some(v);
            i = i + 1;
        } else if starts_with_str(arg, "-c=") {
            let v = parse_non_empty_option_value("-c", trim_start_str_chars(arg, "-c="))?;
            config_path = Some(v);
            i = i + 1;
        } else if starts_with_str(arg, "--log-level=") {
            let v = parse_non_empty_option_value(
                "--log-level",
                trim_start_str_chars(arg, "--log-level="),
            )?;
            log_filter = Some(v);
            i = i + 1;
        } else {
            return Err(concat3("未知选项 '", arg, "'"));
        }
    }
    Ok(CliAction::Run(CliOptions { config_path, log_filter }))
}

/// The configuration file to read: the one given on the command line, else the
/// `WHARF_CONFIG` value when it is not blank (trimmed), else `config/default`.
pub open spec fn config_path_choice(cli: Option<Seq<char>>, env_value: Option<Seq<char>>) -> Seq<
    char,
> {
    match cli {
        Some(p) => p,
        None => match env_value {
            Some(e) => if trim(e).len() > 0 {
                trim(e)
            } else {
                crate::config::DEFAULT_CONFIG_FILE@
            },
            None => crate::config::DEFAULT_CONFIG_FILE@,
        },
    }
}

pub fn resolve_config_path(cli_config_path: Option<String>, env_config_path: Option<String>) -> (r:
    String)
    ensures
        r@ == config_path_choice(cli_config_path.deep_view(), env_config_path.deep_view()),
{
    match cli_config_path {
        Some(p) => p,
        None => match env_config_path {
            Some(e) => {
                let v = chars_of(e.as_str());
                let t = trim_chars(&v);
                if t.len() > 0 {
                    string_of(&t)
                } else {
                    String::from_str(crate::config::DEFAULT_CONFIG_FILE)
                }
            },
            None => String::from_str(crate::config::DEFAULT_CONFIG_FILE),
        },
    }
}

/// The usage text, for the program `name` at `version`.
pub open spec fn help_text_of(name: Seq<char>, version: Seq<char>) -> Seq<char> {
    name + " "@ + version + "\n\nDocker Registry 代理，用于容器镜像加速。\n\n用法:\n  "@ + name
        + " [选项]\n\n选项:\n  -c, --config <路径>       指定配置文件路径，可省略 .toml 后缀\n      --log-level <过滤器>  指定日志级别或 RUST_LOG 过滤器，例如 info、debug、wharf=debug\n  -h, --help               打印帮助信息\n  -V, --version            打印版本信息\n\n优先级:\n  配置文件: --config/-c > WHARF_CONFIG > config/default\n  日志级别: --log-level > RUST_LOG > actix_web=info\n\n兼容说明:\n  不传参数时会继续读取当前工作目录下的 config/default。\n  现有 systemd 配置 WorkingDirectory=/etc/wharf 会继续读取 /etc/wharf/config/default.toml。\n"@
}

pub fn help_text(name: &str, version: &str) -> (r: String)
    ensures
        r@ == help_text_of(name@, version@),
{
    let mut out: Vec<char> = Vec::new();
    push_str_chars(&mut out, name);
    push_str_chars(&mut out, " ");
    push_str_chars(&mut out, version);
    push_str_chars(&mut out, "\n\nDocker Registry 代理，用于容器镜像加速。\n\n用法:\n  ");
    push_str_chars(&mut out, name);
    push_str_chars(
        &mut out,
        " [选项]\n\n选项:\n  -c, --config <路径>       指定配置文件路径，可省略 .toml 后缀\n      --log-level <过滤器>  指定日志级别或 RUST_LOG 过滤器，例如 info、debug、wharf=debug\n  -h, --help               打印帮助信息\n  -V, --version            打印版本信息\n\n优先级:\n  配置文件: --config/-c > WHARF_CONFIG > config/default\n  日志级别: --log-level > RUST_LOG > actix_web=info\n\n兼容说明:\n  不传参数时会继续读取当前工作目录下的 config/default。\n  现有 systemd 配置 WorkingDirectory=/etc/wharf 会继续读取 /etc/wharf/config/default.toml。\n",
    );
    string_of(&out)
}

} // verus!
