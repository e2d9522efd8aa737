//! The metadata that a plugin built with the plugin kit declares about its
//! security, privacy and decentralization, with a builder and a plain-text
//! rendering.
//!
//! Inspired by Nix's `unfree` channel: plugins declare their posture so that
//! users can decide before installing or running them.

use vstd::prelude::*;

verus! {

/// Security, privacy, and decentralization metadata for a plugin.
#[derive(Debug, Clone, PartialEq, Eq)]
pub struct PluginMetadata {
    /// Whether the plugin's source code is publicly available.
    pub open_source: bool,
    /// Whether the smart contracts the plugin interacts with have been
    /// independently audited.
    pub audited_contract: bool,
    /// Whether the plugin or its authors have safe-harbor protection.
    pub safe_harbor: bool,
    /// Whether the plugin has an active bug-bounty programme.
    pub bug_bounty: bool,
    /// Whether the plugin relies on centralized infrastructure.
    pub centralized_infrastructure: bool,
    /// Names of centralized services the plugin depends on.
    pub centralized_services: Vec<String>,
    /// Whether the plugin collects, reports, or logs user data.
    pub reports_data: bool,
    /// Human-readable description of what data is collected and why.
    pub data_reporting_description: Option<String>,
    /// URL to the source-code repository.
    pub source_url: Option<String>,
    /// URL to the audit report(s).
    pub audit_url: Option<String>,
    /// URL to the bug-bounty programme.
    pub bug_bounty_url: Option<String>,
    /// SPDX licence identifier or free-text licence name.
    pub license: Option<String>,
    /// Plugin version string (semver recommended).
    pub version: Option<String>,
    /// Short human-readable description of the plugin.
    pub description: Option<String>,
}

impl Default for PluginMetadata {
    /// Nothing declared: every flag off, no services, no texts.
    fn default() -> (r: Self)
        ensures
            r.is_blank(),
    {
        PluginMetadata {
            open_source: false,
            audited_contract: false,
            safe_harbor: false,
            bug_bounty: false,
            centralized_infrastructure: false,
            centralized_services: Vec::new(),
            reports_data: false,
            data_reporting_description: None,
            source_url: None,
            audit_url: None,
            bug_bounty_url: None,
            license: None,
            version: None,
            description: None,
        }
    }
}

/// A line of the rendering: a label and a text, ended by a new line.
pub open spec fn line(label: Seq<char>, text: Seq<char>) -> Seq<char> {
    label + text + "\n"@
}

/// A line for an optional text; nothing when the text is absent.
pub open spec fn optional_line(label: Seq<char>, text: Option<String>) -> Seq<char> {
    match text {
        Some(t) => line(label, t@),
        None => Seq::empty(),
    }
}

/// `yes` or `no`.
pub open spec fn yes_no_text(v: bool) -> Seq<char> {
    if v {
        "yes"@
    } else {
        "no"@
    }
}

/// The strings joined with `, ` between them.
pub open spec fn joined(v: Seq<String>) -> Seq<char>
    decreases v.len(),
{
    if v.len() == 0 {
        Seq::empty()
    } else if v.len() == 1 {
        v[0]@
    } else {
        joined(v.drop_last()) + ", "@ + v.last()@
    }
}

impl PluginMetadata {
    /// Nothing is declared.
    pub open spec fn is_blank(&self) -> bool {
        &&& !self.open_source
        &&& !self.audited_contract
        &&& !self.safe_harbor
        &&& !self.bug_bounty
        &&& !self.centralized_infrastructure
        &&& self.centralized_services@.len() == 0
        &&& !self.reports_data
        &&& self.data_reporting_description is None
        &&& self.source_url is None
        &&& self.audit_url is None
        &&& self.bug_bounty_url is None
        &&& self.license is None
        &&& self.version is None
        &&& self.description is None
    }

    /// Open source, audited, without centralized dependencies and without
    /// data reporting.
    pub open spec fn transparent(&self) -> bool {
        &&& self.open_source
        &&& self.audited_contract
        &&& !self.centralized_infrastructure
        &&& self.centralized_services@.len() == 0
        &&& !self.reports_data
    }

    /// The plain-text rendering: a heading, then one line per declared
    /// attribute, each flag as `yes` or `no`, optional texts only when
    /// present, the centralized services only when there are some.
    pub open spec fn rendering(&self) -> Seq<char> {
        "Plugin Metadata:\n"@ + optional_line("  Description: "@, self.description)
            + optional_line("  Version: "@, self.version) + optional_line(
            "  License: "@,
            self.license,
        ) + line("  Open Source: "@, yes_no_text(self.open_source)) + line(
            "  Audited Contract: "@,
            yes_no_text(self.audited_contract),
        ) + line("  Safe Harbor: "@, yes_no_text(self.safe_harbor)) + line(
            "  Bug Bounty: "@,
            yes_no_text(self.bug_bounty),
        ) + line("  Centralized Infrastructure: "@, yes_no_text(self.centralized_infrastructure))
            + (if self.centralized_services@.len() == 0 {
            Seq::empty()
        } else {
            line("  Centralized Services: "@, joined(self.centralized_services@))
        }) + line("  Reports Data: "@, yes_no_text(self.reports_data)) + optional_line(
            "  Data Reporting: "@,
            self.data_reporting_description,
        ) + optional_line("  Source URL: "@, self.source_url) + optional_line(
            "  Audit URL: "@,
            self.audit_url,
        ) + optional_line("  Bug Bounty URL: "@, self.bug_bounty_url)
    }

    /// Create an empty metadata builder.
    pub fn new() -> (r: Self)
        ensures
            r.is_blank(),
    {
        Self::default()
    }

    pub fn open_source(self, v: bool) -> (r: Self)
        ensures
            r == (PluginMetadata { open_source: v, ..self }),
    {
        PluginMetadata { open_source: v, ..self }
    }

    pub fn audited_contract(self, v: bool) -> (r: Self)
        ensures
            r == (PluginMetadata { audited_contract: v, ..self }),
    {
        PluginMetadata { audited_contract: v, ..self }
    }

    pub fn safe_harbor(self, v: bool) -> (r: Self)
        ensures
            r == (PluginMetadata { safe_harbor: v, ..self }),
    {
        PluginMetadata { safe_harbor: v, ..self }
    }

    pub fn bug_bounty(self, v: bool) -> (r: Self)
        ensures
            r == (PluginMetadata { bug_bounty: v, ..self }),
    {
        PluginMetadata { bug_bounty: v, ..self }
    }

    pub fn centralized_infrastructure(self, v: bool) -> (r: Self)
        ensures
            r == (PluginMetadata { centralized_infrastructure: v, ..self }),
    {
        PluginMetadata { centralized_infrastructure: v, ..self }
    }

    /// Mark a centralized service dependency. Sets
    /// `centralized_infrastructure` to `true` as well.
    pub fn centralized_service(self, name: String) -> (r: Self)
        ensures
            r.centralized_services@ == self.centralized_services@.push(name),
            r == (PluginMetadata {
                centralized_services: r.centralized_services,
                centralized_infrastructure: true,
                ..self
            }),
    {
        let mut m = self;
        m.centralized_services.push(name);
        m.centralized_infrastructure = true;
        m
    }

    pub fn reports_data(self, v: bool) -> (r: Self)
        ensures
            r == (PluginMetadata { reports_data: v, ..self }),
    {
        PluginMetadata { reports_data: v, ..self }
    }

    pub fn data_reporting_description(self, desc: String) -> (r: Self)
        ensures
            r == (PluginMetadata { data_reporting_description: Some(desc), ..self }),
    {
        PluginMetadata { data_reporting_description: Some(desc), ..self }
    }

    pub fn source_url(self, url: String) -> (r: Self)
        ensures
            r == (PluginMetadata { source_url: Some(url), ..self }),
    {
        PluginMetadata { source_url: Some(url), ..self }
    }

    pub fn audit_url(self, url: String) -> (r: Self)
        ensures
            r == (PluginMetadata { audit_url: Some(url), ..self }),
    {
        PluginMetadata { audit_url: Some(url), ..self }
    }

    pub fn bug_bounty_url(self, url: String) -> (r: Self)
        ensures
            r == (PluginMetadata { bug_bounty_url: Some(url), ..self }),
    {
        PluginMetadata { bug_bounty_url: Some(url), ..self }
    }

    pub fn license(self, lic: String) -> (r: Self)
        ensures
            r == (PluginMetadata { license: Some(lic), ..self }),
    {
        PluginMetadata { license: Some(lic), ..self }
    }

    pub fn version(self, ver: String) -> (r: Self)
        ensures
            r == (PluginMetadata { version: Some(ver), ..self }),
    {
        PluginMetadata { version: Some(ver), ..self }
    }

    pub fn description(self, desc: String) -> (r: Self)
        ensures
            r == (PluginMetadata { description: Some(desc), ..self }),
    {
        PluginMetadata { description: Some(desc), ..self }
    }

    /// Returns `true` if the plugin is fully transparent: open-source with
    /// audited contracts and no centralized dependencies or data reporting.
    pub fn is_fully_decentralized(&self) -> (r: bool)
        ensures
            r == self.transparent(),
    {
        self.open_source && self.audited_contract && !self.centralized_infrastructure
            && self.centralized_services.len() == 0 && !self.reports_data
    }

    /// The plain-text rendering of the metadata.
    pub fn display_text(&self) -> (r: String)
        ensures
            r@ == self.rendering(),
    {
        let mut out = String::from_str("Plugin Metadata:\n");
        push_optional(&mut out, "  Description: ", &self.description);
        push_optional(&mut out, "  Version: ", &self.version);
        push_optional(&mut out, "  License: ", &self.license);
        push_line(&mut out, "  Open Source: ", yes_no(self.open_source));
        push_line(&mut out, "  Audited Contract: ", yes_no(self.audited_contract));
        push_line(&mut out, "  Safe Harbor: ", yes_no(self.safe_harbor));
        push_line(&mut out, "  Bug Bounty: ", yes_no(self.bug_bounty));
        push_line(&mut out, "  Centralized Infrastructure: ", yes_no(self.centralized_infrastructure));
        if self.centralized_services.len() > 0 {
            let services = join_names(&self.centralized_services);
            push_line(&mut out, "  Centralized Services: ", services.as_str());
        }
        push_line(&mut out, "  Reports Data: ", yes_no(self.reports_data));
        push_optional(&mut out, "  Data Reporting: ", &self.data_reporting_description);
        push_optional(&mut out, "  Source URL: ", &self.source_url);
        push_optional(&mut out, "  Audit URL: ", &self.audit_url);
        push_optional(&mut out, "  Bug Bounty URL: ", &self.bug_bounty_url);
        assert(out@ =~= self.rendering());
        out
    }
}

/// `yes` or `no`.
pub fn yes_no(v: bool) -> (r: &'static str)
    ensures
        r@ == yes_no_text(v),
{
    if v {
        "yes"
    } else {
        "no"
    }
}

fn push_line(out: &mut String, label: &str, text: &str)
    ensures
        final(out)@ == old(out)@ + line(label@, text@),
{
    out.append(label);
    out.append(text);
    out.append("\n");
    assert(out@ =~= old(out)@ + line(label@, text@));
}

fn push_optional(out: &mut String, label: &str, text: &Option<String>)
    ensures
        final(out)@ == old(out)@ + optional_line(label@, *text),
{
    match text {
        Some(t) => push_line(out, label, t.as_str()),
        None => {
            assert(out@ =~= old(out)@ + optional_line(label@, *text));
        },
    }
}

fn join_names(names: &Vec<String>) -> (r: String)
    ensures
        r@ == joined(names@),
{
    let mut r = String::new();
    for i in 0..names.len()
        invariant
            r@ == joined(names@.subrange(0, i as int)),
    {
        proof {
            assert(names@.subrange(0, i + 1).drop_last() =~= names@.subrange(0, i as int));
        }
        if i > 0 {
            r.append(", ");
        }
        r.append(names[i].as_str());
        proof {
            if i == 0 {
                assert(r@ =~= joined(names@.subrange(0, 1)));
            } else {
                assert(r@ =~= joined(names@.subrange(0, i + 1)));
            }
        }
    }
    assert(names@.subrange(0, names@.len() as int) =~= names@);
    r
}

/// Implemented by every plugin to expose its security, privacy and
/// decentralization metadata.
pub trait MetadataProvider {
    /// Return the plugin's metadata.
    fn metadata(&self) -> PluginMetadata;
}

/// A plugin that declares every property that the transparency check asks
/// for, and names no centralized service, is fully decentralized, whatever
/// else it declares.
pub proof fn law_transparent_when_declared(m: PluginMetadata)
    requires
        m.centralized_services@.len() == 0,
    ensures
        (PluginMetadata {
            open_source: true,
            audited_contract: true,
            centralized_infrastructure: false,
            reports_data: false,
            ..m
        }).transparent(),
        m.transparent() ==> m.open_source && m.audited_contract,
{
}

/// Declaring a centralized service takes a plugin out of the fully
/// decentralized ones, and clearing the infrastructure flag afterwards does
/// not bring it back.
pub proof fn law_service_is_centralized(m: PluginMetadata, after: PluginMetadata, name: String)
    requires
        after.centralized_services@ == m.centralized_services@.push(name),
        after == (PluginMetadata {
            centralized_services: after.centralized_services,
            centralized_infrastructure: true,
            ..m
        }),
    ensures
        !after.transparent(),
        after.centralized_services@.len() > 0,
        !(PluginMetadata { centralized_infrastructure: false, ..after }).transparent(),
{
}

/// The total length of the strings.
pub open spec fn total_len(v: Seq<String>) -> nat
    decreases v.len(),
{
    if v.len() == 0 {
        0
    } else {
        total_len(v.drop_last()) + v.last()@.len()
    }
}

/// Where the `i`-th string starts in their joined text: after the strings
/// before it and a separator of two characters after each of them.
pub open spec fn name_offset(v: Seq<String>, i: int) -> int {
    total_len(v.take(i)) + 2 * i
}

/// Joining strings keeps every one of them, in order, with `, ` between
/// each two and nothing else: the text is as long as the strings and the
/// separators together, the `i`-th string stands at its offset, and a
/// separator stands just before each string but the first.
pub proof fn law_joined_layout(v: Seq<String>)
    requires
        v.len() > 0,
    ensures
        joined(v).len() == total_len(v) + 2 * (v.len() - 1),
        forall|i: int|
            0 <= i < v.len() ==> joined(v).subrange(
                name_offset(v, i),
                name_offset(v, i) + (#[trigger] v[i])@.len(),
            ) == v[i]@,
        forall|i: int|
            1 <= i < v.len() ==> joined(v).subrange(name_offset(v, i) - 2, #[trigger] name_offset(
                v,
                i,
            )) == ", "@,
    decreases v.len(),
{
    reveal_strlit(", ");
    let n = v.len() as int;
    let j = joined(v);
    assert(v.take(0) =~= Seq::<String>::empty());
    if n == 1 {
        assert(v.drop_last() =~= Seq::<String>::empty());
        assert(j.subrange(0, v[0]@.len() as int) =~= v[0]@);
    } else {
        let w = v.drop_last();
        law_joined_layout(w);
        let jw = joined(w);
        assert(j == jw + ", "@ + v.last()@);
        assert(v.take(n - 1) =~= w);
        assert forall|i: int| 0 <= i < n implies joined(v).subrange(
            name_offset(v, i),
            name_offset(v, i) + (#[trigger] v[i])@.len(),
        ) == v[i]@ by {
            if i < n - 1 {
                assert(v.take(i) =~= w.take(i));
                assert(w[i] == v[i]);
                lemma_total_len_prefix(w, i);
                assert(j.subrange(name_offset(v, i), name_offset(v, i) + v[i]@.len()) =~= jw.subrange(
                    name_offset(w, i),
                    name_offset(w, i) + w[i]@.len(),
                ));
            } else {
                assert(j.subrange(name_offset(v, i), name_offset(v, i) + v[i]@.len()) =~= v[i]@);
            }
        }
        assert forall|i: int| 1 <= i < n implies joined(v).subrange(
            name_offset(v, i) - 2,
            #[trigger] name_offset(v, i),
        ) == ", "@ by {
            if i < n - 1 {
                assert(v.take(i) =~= w.take(i));
                lemma_total_len_prefix(w, i);
                assert(j.subrange(name_offset(v, i) - 2, name_offset(v, i)) =~= jw.subrange(
                    name_offset(w, i) - 2,
                    name_offset(w, i),
                ));
            } else {
                assert(j.subrange(name_offset(v, i) - 2, name_offset(v, i)) =~= ", "@);
            }
        }
    }
}

/// A string of a prefix ends within the strings of the whole.
proof fn lemma_total_len_prefix(v: Seq<String>, i: int)
    requires
        0 <= i < v.len(),
    ensures
        total_len(v.take(i)) + v[i]@.len() <= total_len(v),
    decreases v.len(),
{
    if i < v.len() - 1 {
        lemma_total_len_prefix(v.drop_last(), i);
        assert(v.drop_last().take(i) =~= v.take(i));
    } else {
        assert(v.take(i) =~= v.drop_last());
    }
}

} // verus!
