//! Registry targets and the choice of target for a request: by route name, by
//! the `Host` header, or the configured default.
use vstd::prelude::*;
use crate::text::{
    chars_of, contains_char, copy_range, find_exec, lower, lower_chars, split_once,
    split_once_chars, starts_with, string_of, trim, trim_chars, trim_end_chars, trim_end_class,
    CharClass,
};

verus! {

/// One upstream registry that the proxy serves.
#[derive(Debug, Clone)]
pub struct RegistryTarget {
    pub name: String,
    pub hosts: Vec<String>,
    pub upstream_registry: String,
    pub auth_realm: String,
    pub auth_service: String,
    pub auto_library_prefix: bool,
    pub public_base_url: String,
}

/// The contents of a [`RegistryTarget`], as text.
pub struct TargetView {
    pub name: Seq<char>,
    pub hosts: Seq<Seq<char>>,
    pub upstream_registry: Seq<char>,
    pub auth_realm: Seq<char>,
    pub auth_service: Seq<char>,
    pub auto_library_prefix: bool,
    pub public_base_url: Seq<char>,
}

impl View for RegistryTarget {
    type V = TargetView;

    open spec fn view(&self) -> TargetView {
        TargetView {
            name: self.name@,
            hosts: self.hosts.deep_view(),
            upstream_registry: self.upstream_registry@,
            auth_realm: self.auth_realm@,
            auth_service: self.auth_service@,
            auto_library_prefix: self.auto_library_prefix,
            public_base_url: self.public_base_url@,
        }
    }
}

/// The registries that the proxy serves and the name of the default one.
#[derive(Clone)]
pub struct AppState {
    pub registries: Vec<RegistryTarget>,
    pub default_registry: String,
    pub public_base_url: String,
}

pub open spec fn targets_view(v: Seq<RegistryTarget>) -> Seq<TargetView> {
    v.map_values(|t: RegistryTarget| t@)
}

/// Copies a list of strings.
pub fn copy_strings(v: &Vec<String>) -> (r: Vec<String>)
    ensures
        r.deep_view() == v.deep_view(),
{
    let mut r: Vec<String> = Vec::new();
    let mut i: usize = 0;
    while i < v.len()
        invariant
            i <= v@.len(),
            r@.len() == i,
            forall|k: int| 0 <= k < i ==> #[trigger] r@[k]@ == v@[k]@,
        decreases v@.len() - i,
    {
        let s = v[i].clone();
        r.push(s);
        i = i + 1;
    }
    assert(r.deep_view() =~= v.deep_view());
    r
}

impl RegistryTarget {
    /// A copy of this target.
    pub fn duplicate(&self) -> (r: RegistryTarget)
        ensures
            r@ == self@,
    {
        RegistryTarget {
            name: self.name.clone(),
            hosts: copy_strings(&self.hosts),
            upstream_registry: self.upstream_registry.clone(),
            auth_realm: self.auth_realm.clone(),
            auth_service: self.auth_service.clone(),
            auto_library_prefix: self.auto_library_prefix,
            public_base_url: self.public_base_url.clone(),
        }
    }
}

/// Index of the first registry at or after `i` whose name equals `name`
/// ignoring ASCII case, or `regs.len()` when there is none.
pub open spec fn first_named(regs: Seq<TargetView>, name: Seq<char>, i: int) -> int
    decreases regs.len() - i,
{
    if i < 0 || i >= regs.len() {
        regs.len() as int
    } else if crate::text::eq_ic(regs[i].name, name) {
        i
    } else {
        first_named(regs, name, i + 1)
    }
}

/// A host from the `Host` header or the configuration, reduced to the form
/// that is compared: trimmed, without trailing dots, ASCII lowercase, without
/// the brackets of an IPv6 literal and without a port.
pub open spec fn normalized_host(host: Seq<char>) -> Seq<char> {
    let h = lower(trim_end_class(trim(host), CharClass::Exactly('.')));
    if starts_with(h, seq!['[']) {
        crate::text::first_piece(h.skip(1), ']')
    } else {
        match split_once(h, ':') {
            Some((before, after)) => if !after.contains(':') {
                before
            } else {
                h
            },
            None => h,
        }
    }
}

proof fn lemma_skip_back_after_separator(a: Seq<char>, c: char, b: Seq<char>, j: int, cls: CharClass)
    requires
        !crate::text::in_class(c, cls),
        0 <= j <= b.len(),
    ensures
        crate::text::skip_back(a + seq![c] + b, a.len() + 1 + j, cls) == a.len() + 1
            + crate::text::skip_back(b, j, cls),
    decreases j,
{
    let s = a + seq![c] + b;
    if j > 0 {
        assert(s[a.len() + 1 + j - 1] == b[j - 1]);
        lemma_skip_back_after_separator(a, c, b, j - 1, cls);
    } else {
        assert(s[a.len() as int] == c);
    }
}

/// Trimming the end of `a + [c] + b` by a class that `c` is not in trims only `b`.
proof fn lemma_trim_end_after_separator(a: Seq<char>, c: char, b: Seq<char>, cls: CharClass)
    requires
        !crate::text::in_class(c, cls),
    ensures
        trim_end_class(a + seq![c] + b, cls) == a + seq![c] + trim_end_class(b, cls),
{
    let s = a + seq![c] + b;
    lemma_skip_back_after_separator(a, c, b, b.len() as int, cls);
    crate::text::lemma_skip_back_bounds(b, b.len() as int, cls);
    assert(s.len() == a.len() + 1 + b.len());
    assert(trim_end_class(s, cls) =~= a + seq![c] + trim_end_class(b, cls));
}

/// A host written as trimmed text, with no trailing dot, no `:` and no
/// opening `[`.
pub open spec fn is_plain_host_name(h: Seq<char>) -> bool {
    &&& !h.contains(':')
    &&& h.len() > 0 ==> h[0] != '[' && !crate::text::is_white_space(h[0])
        && !crate::text::is_white_space(h.last()) && h.last() != '.'
}

proof fn lemma_lower_keeps_colons_and_brackets(s: Seq<char>)
    ensures
        lower(s).len() == s.len(),
        forall|i: int| 0 <= i < s.len() ==> (#[trigger] lower(s)[i] == ':' <==> s[i] == ':'),
        forall|i: int| 0 <= i < s.len() ==> (#[trigger] lower(s)[i] == '[' <==> s[i] == '['),
{
}

/// A port never decides which registry a `Host` header names: a host name
/// followed by `:` and any port text (without a further `:`) is compared as
/// the host name alone, so `mirror.example.com:5000` selects the target that
/// lists `mirror.example.com`.
pub proof fn law_host_port_is_ignored(h: Seq<char>, port: Seq<char>)
    requires
        is_plain_host_name(h),
        !port.contains(':'),
    ensures
        normalized_host(h + seq![':'] + port) == normalized_host(h),
        normalized_host(h + seq![':'] + port) == lower(h),
{
    let s = h + seq![':'] + port;
    let ws = CharClass::WhiteSpace;
    let dot = CharClass::Exactly('.');
    // trim(s) = h + ':' + (port without trailing white space)
    assert(crate::text::skip_fwd(s, 0, ws) == 0) by {
        if h.len() > 0 {
            assert(s[0] == h[0]);
        } else {
            assert(s[0] == ':');
        }
    }
    assert(crate::text::trim_start(s) =~= s);
    lemma_trim_end_after_separator(h, ':', port, ws);
    let p1 = trim_end_class(port, ws);
    lemma_trim_end_after_separator(h, ':', p1, dot);
    let p2 = trim_end_class(p1, dot);
    let t = h + seq![':'] + p2;
    assert(trim_end_class(trim(s), dot) == t);
    crate::text::lemma_skip_back_bounds(port, port.len() as int, ws);
    crate::text::lemma_skip_back_bounds(p1, p1.len() as int, dot);
    assert(!p2.contains(':')) by {
        assert forall|k: int| 0 <= k < p2.len() implies p2[k] != ':' by {
            assert(p2[k] == p1[k]);
            assert(p1[k] == port[k]);
        }
    }
    let l = lower(t);
    assert(l =~= lower(h) + seq![':'] + lower(p2));
    lemma_lower_keeps_colons_and_brackets(h);
    lemma_lower_keeps_colons_and_brackets(p2);
    assert(!lower(h).contains(':')) by {
        assert forall|k: int| 0 <= k < lower(h).len() implies lower(h)[k] != ':' by {
            assert(h[k] != ':');
        }
    }
    assert(!lower(p2).contains(':')) by {
        assert forall|k: int| 0 <= k < lower(p2).len() implies lower(p2)[k] != ':' by {
            assert(p2[k] != ':');
        }
    }
    assert(!starts_with(l, seq!['['])) by {
        if h.len() > 0 {
            assert(l[0] == lower(h)[0]);
        } else {
            assert(l[0] == ':');
        }
        assert(l.take(1)[0] == l[0]);
    }
    crate::text::lemma_split_once_concat(lower(h), ':', lower(p2));
    assert(normalized_host(s) == lower(h));
    // the host name alone is already in compared form
    if h.len() > 0 {
        crate::text::lemma_trim_unchanged(h);
        assert(crate::text::skip_back(h, h.len() as int, dot) == h.len());
        assert(h.take(h.len() as int) =~= h);
        assert(lower(h).len() > 0 && lower(h)[0] != '[');
        assert(!starts_with(lower(h), seq!['['])) by {
            assert(lower(h).take(1)[0] == lower(h)[0]);
        }
    } else {
        assert(trim(h) =~= h);
        assert(trim_end_class(h, dot) =~= h);
        assert(lower(h) =~= h);
    }
    assert(trim_end_class(trim(h), dot) == h);
    crate::text::lemma_split_once_pieces(lower(h), ':');
    if let Some((a, b)) = split_once(lower(h), ':') {
        assert(lower(h)[a.len() as int] == ':');
    }
    assert(split_once(lower(h), ':') is None);
}

/// The host that a request names in its `Host` header, if it names a non-empty one.
pub open spec fn request_host_of(header: Option<Seq<char>>) -> Option<Seq<char>> {
    match header {
        Some(h) => if normalized_host(h).len() > 0 {
            Some(normalized_host(h))
        } else {
            None
        },
        None => None,
    }
}

/// Whether a registry lists a host that matches `host`.
pub open spec fn serves_host(t: TargetView, host: Seq<char>) -> bool {
    exists|k: int| 0 <= k < t.hosts.len() && normalized_host(#[trigger] t.hosts[k]) == host
}

/// Index of the first registry at or after `i` that serves `host`, or
/// `regs.len()` when there is none.
pub open spec fn first_serving(regs: Seq<TargetView>, host: Seq<char>, i: int) -> int
    decreases regs.len() - i,
{
    if i < 0 || i >= regs.len() {
        regs.len() as int
    } else if serves_host(regs[i], host) {
        i
    } else {
        first_serving(regs, host, i + 1)
    }
}

/// The registry named as default, or else the first one.
pub open spec fn default_target(regs: Seq<TargetView>, default_name: Seq<char>) -> TargetView {
    let i = first_named(regs, default_name, 0);
    if i < regs.len() {
        regs[i]
    } else {
        regs[0]
    }
}

/// The registry that serves a request with the given `Host` header.
pub open spec fn target_for_host(
    regs: Seq<TargetView>,
    default_name: Seq<char>,
    header: Option<Seq<char>>,
) -> TargetView {
    match request_host_of(header) {
        Some(host) => {
            let i = first_serving(regs, host, 0);
            if i < regs.len() {
                regs[i]
            } else {
                default_target(regs, default_name)
            }
        },
        None => default_target(regs, default_name),
    }
}

pub proof fn lemma_first_named(regs: Seq<TargetView>, name: Seq<char>, i: int)
    requires
        0 <= i <= regs.len(),
    ensures
        i <= first_named(regs, name, i) <= regs.len(),
        forall|k: int|
            i <= k < first_named(regs, name, i) ==> !crate::text::eq_ic(
                #[trigger] regs[k].name,
                name,
            ),
        first_named(regs, name, i) < regs.len() ==> crate::text::eq_ic(
            regs[first_named(regs, name, i)].name,
            name,
        ),
    decreases regs.len() - i,
{
    if i < regs.len() && !crate::text::eq_ic(regs[i].name, name) {
        lemma_first_named(regs, name, i + 1);
    }
}

pub proof fn lemma_first_serving(regs: Seq<TargetView>, host: Seq<char>, i: int)
    requires
        0 <= i <= regs.len(),
    ensures
        i <= first_serving(regs, host, i) <= regs.len(),
    decreases regs.len() - i,
{
    if i < regs.len() && !serves_host(regs[i], host) {
        lemma_first_serving(regs, host, i + 1);
    }
}

/// Whatever the `Host` header, a request is served by one of the configured
/// registries.
pub proof fn law_request_served_by_configured_registry(
    regs: Seq<TargetView>,
    default_name: Seq<char>,
    header: Option<Seq<char>>,
)
    requires
        regs.len() > 0,
    ensures
        regs.contains(target_for_host(regs, default_name, header)),
{
    lemma_first_named(regs, default_name, 0);
    let d = first_named(regs, default_name, 0);
    if d < regs.len() {
        assert(default_target(regs, default_name) == regs[d]);
    } else {
        assert(default_target(regs, default_name) == regs[0]);
    }
    if let Some(host) = request_host_of(header) {
        lemma_first_serving(regs, host, 0);
        let i = first_serving(regs, host, 0);
        if i < regs.len() {
            assert(target_for_host(regs, default_name, header) == regs[i]);
        }
    }
}

/// Normalizes a host for comparison (see [`normalized_host`]).
pub fn normalize_host(host: &str) -> (r: String)
    ensures
        r@ == normalized_host(host@),
{
    let v = chars_of(host);
    let t = trim_chars(&v);
    let t = trim_end_chars(&t, CharClass::Exactly('.'));
    let h = lower_chars(&t);
    if h.len() > 0 && h[0] == '[' {
        assert(starts_with(h@, seq!['[']) ) by {
            assert(h@.take(1) =~= seq!['[']);
        }
        let rest = copy_range(&h, 1, h.len());
        assert(rest@ =~= h@.skip(1));
        let k = find_exec(&rest, ']', 0);
        return string_of(&copy_range(&rest, 0, k));
    }
    assert(!starts_with(h@, seq!['['])) by {
        if h@.len() >= 1 {
            assert(h@.take(1)[0] == h@[0]);
        }
    }
    match split_once_chars(&h, ':') {
        Some((before, after)) => {
            if !contains_char(&after, ':') {
                string_of(&before)
            } else {
                string_of(&h)
            }
        },
        None => string_of(&h),
    }
}

/// Whether a configured host matches an already normalized request host.
pub fn host_matches(configured: &str, request_host: &str) -> (r: bool)
    ensures
        r == (normalized_host(configured@) == request_host@),
{
    let n = normalize_host(configured);
    let a = chars_of(n.as_str());
    let b = chars_of(request_host);
    chars_eq(&a, &b)
}

/// Equality of two character vectors.
pub fn chars_eq(a: &Vec<char>, b: &Vec<char>) -> (r: bool)
    ensures
        r == (a@ == b@),
{
    if a.len() != b.len() {
        return false;
    }
    let mut i: usize = 0;
    while i < a.len()
        invariant
            a@.len() == b@.len(),
            i <= a@.len(),
            forall|k: int| 0 <= k < i ==> a@[k] == b@[k],
        decreases a@.len() - i,
    {
        if a[i] != b[i] {
            return false;
        }
        i = i + 1;
    }
    assert(a@ =~= b@);
    true
}

/// The host named by a request's `Host` header value, normalized, when it is
/// present and not empty.
pub fn request_host(host_header: Option<&str>) -> (r: Option<String>)
    ensures
        r.deep_view() == request_host_of(
            match host_header {
                Some(h) => Some(h@),
                None => None,
            },
        ),
{
    match host_header {
        Some(h) => {
            let n = normalize_host(h);
            let c = chars_of(n.as_str());
            if c.len() > 0 {
                Some(n)
            } else {
                None
            }
        },
        None => None,
    }
}

impl AppState {
    pub open spec fn regs(&self) -> Seq<TargetView> {
        targets_view(self.registries@)
    }

    /// The first registry whose name equals `name` ignoring ASCII case.
    pub fn registry_by_name(&self, name: &str) -> (r: Option<RegistryTarget>)
        ensures
            ({
                let i = first_named(self.regs(), name@, 0);
                match r {
                    Some(t) => i < self.regs().len() && t@ == self.regs()[i],
                    None => i == self.regs().len(),
                }
            }),
    {
        let wanted = chars_of(name);
        let mut i: usize = 0;
        proof {
            lemma_first_named(self.regs(), name@, 0);
        }
        while i < self.registries.len()
            invariant
                i <= self.registries@.len(),
                wanted@ == name@,
                first_named(self.regs(), name@, 0) == first_named(self.regs(), name@, i as int),
            decreases self.registries@.len() - i,
        {
            let candidate = chars_of(self.registries[i].name.as_str());
            assert(self.regs()[i as int] == self.registries@[i as int]@);
            if crate::text::eq_ic_chars(&candidate, &wanted) {
                return Some(self.registries[i].duplicate());
            }
            i = i + 1;
        }
        None
    }

    /// The registry named as default, or the first registry when no registry has
    /// that name.
    pub fn default_registry(&self) -> (r: RegistryTarget)
        requires
            self.registries@.len() > 0,
        ensures
            r@ == default_target(self.regs(), self.default_registry@),
    {
        match self.registry_by_name(self.default_registry.as_str()) {
            Some(t) => t,
            None => self.registries[0].duplicate(),
        }
    }

    /// The registry that serves a request whose `Host` header is `host_header`:
    /// the first registry that lists a matching host, else the default registry.
    pub fn registry_for_request(&self, host_header: Option<&str>) -> (r: RegistryTarget)
        requires
            self.registries@.len() > 0,
        ensures
            r@ == target_for_host(
                self.regs(),
                self.default_registry@,
                match host_header {
                    Some(h) => Some(h@),
                    None => None,
                },
            ),
    {
        let host = match request_host(host_header) {
            Some(h) => h,
            None => return self.default_registry(),
        };
        let mut i: usize = 0;
        while i < self.registries.len()
            invariant
                i <= self.registries@.len(),
                first_serving(self.regs(), host@, 0) == first_serving(self.regs(), host@, i as int),
                request_host_of(
                    match host_header {
                        Some(h) => Some(h@),
                        None => None,
                    },
                ) == Some(host@),
            decreases self.registries@.len() - i,
        {
            let target = &self.registries[i];
            assert(self.regs()[i as int] == target@);
            let mut j: usize = 0;
            let mut found = false;
            while j < target.hosts.len()
                invariant
                    j <= target.hosts@.len(),
                    target.hosts.deep_view().len() == target.hosts@.len(),
                    !found ==> forall|k: int|
                        0 <= k < j ==> normalized_host(#[trigger] target@.hosts[k]) != host@,
                    found ==> serves_host(target@, host@),
                decreases target.hosts@.len() - j,
            {
                if !found && host_matches(target.hosts[j].as_str(), host.as_str()) {
                    assert(target@.hosts[j as int] == target.hosts@[j as int]@);
                    found = true;
                }
                assert(target@.hosts[j as int] == target.hosts@[j as int]@);
                j = j + 1;
            }
            if found {
                return target.duplicate();
            }
            i = i + 1;
        }
        self.default_registry()
    }
}

} // verus!
