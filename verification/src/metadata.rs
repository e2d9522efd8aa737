//! Security / privacy / decentralization metadata that every plugin
//! declares about itself, in the manner of Nix's `unfree` channel.
//!
//! Defaults are deliberately pessimistic: whatever a plugin does not
//! declare is taken to be the riskier option.

use vstd::prelude::*;

verus! {

/// Complete metadata block describing a plugin's trust-relevant properties.
#[derive(Debug, Clone, PartialEq, Eq)]
pub struct PluginMetadata {
    /// Plugin display name.
    pub name: String,
    /// Plugin semantic version.
    pub version: String,
    /// Short human-readable description.
    pub description: String,
    /// Source openness & licensing.
    pub openness: Openness,
    /// Security posture of the plugin and the contracts it interacts with.
    pub security: Security,
    /// Privacy / data-handling posture.
    pub privacy: Privacy,
    /// Decentralization posture.
    pub decentralization: Decentralization,
}

/// Source openness & licensing.
#[derive(Debug, Clone, PartialEq, Eq)]
pub struct Openness {
    /// `true` if the plugin source is publicly available under an
    /// OSI-approved license.
    pub open_source: bool,
    /// SPDX license identifier when open source (e.g. `"MIT"`).
    pub license: Option<String>,
    /// URL of the public source repository, if any.
    pub repository_url: Option<String>,
}

/// Security posture of the plugin and the on-chain resources it touches.
#[derive(Debug, Clone, PartialEq, Eq)]
pub struct Security {
    /// `true` if the on-chain contracts the plugin interacts with have been
    /// professionally audited.
    pub audited_contract: bool,
    /// URLs of audit reports, if any.
    pub audit_reports: Vec<String>,
    /// `true` if the project maintains a safe-harbor policy.
    pub safe_harbor: bool,
    /// `true` if there is an active bug-bounty program.
    pub bug_bounty: bool,
    /// URL of the bug-bounty program, if any.
    pub bug_bounty_url: Option<String>,
}

/// Privacy / data-handling posture.
#[derive(Debug, Clone, PartialEq, Eq)]
pub struct Privacy {
    /// `true` if the plugin reports telemetry or performs off-chain logging.
    /// Defaults to `true` (assume it logs until declared otherwise).
    pub reports_data: bool,
    /// Categories of data collected, if any.
    pub data_collected: Vec<DataCategory>,
    /// URL of the privacy policy, if any.
    pub privacy_policy_url: Option<String>,
}

/// A category of data a plugin may collect or report.
#[derive(Debug, Clone, Copy, PartialEq, Eq, Structural)]
pub enum DataCategory {
    UsageAnalytics,
    WalletAddresses,
    TransactionHistory,
    IpAddress,
    DeviceFingerprint,
    PersonalIdentifiableInfo,
}

/// Decentralization posture.
#[derive(Debug, Clone, PartialEq, Eq)]
pub struct Decentralization {
    /// `true` if the plugin relies on centralized infrastructure.
    /// Defaults to `true` (assume centralized until declared otherwise).
    pub relies_on_centralized_infrastructure: bool,
    /// Names of the centralized providers relied upon.
    pub centralized_providers: Vec<String>,
    /// `true` if a single operator can censor or halt the plugin's
    /// critical path.
    pub single_operator_risk: bool,
}

/// Coarse Nix-style "channel" classification derived from the metadata.
#[derive(Debug, Clone, Copy, PartialEq, Eq, Structural)]
pub enum TrustChannel {
    /// Meets every positive criterion: open source, audited, no centralized
    /// reliance, no data reporting.
    Trusted,
    /// Open source but with some remaining concerns.
    Restricted,
    /// Fails key criteria; analogous to Nix's `unfree`.
    Untrusted,
}

impl Default for Openness {
    fn default() -> (r: Self)
        ensures
            !r.open_source,
            r.license is None,
            r.repository_url is None,
    {
        Openness { open_source: false, license: None, repository_url: None }
    }
}

impl Default for Security {
    fn default() -> (r: Self)
        ensures
            !r.audited_contract,
            r.audit_reports@.len() == 0,
            !r.safe_harbor,
            !r.bug_bounty,
            r.bug_bounty_url is None,
    {
        Security {
            audited_contract: false,
            audit_reports: Vec::new(),
            safe_harbor: false,
            bug_bounty: false,
            bug_bounty_url: None,
        }
    }
}

impl Default for Privacy {
    /// Pessimistic: data is taken to be reported until the plugin opts out.
    fn default() -> (r: Self)
        ensures
            r.reports_data,
            r.data_collected@.len() == 0,
            r.privacy_policy_url is None,
    {
        Privacy { reports_data: true, data_collected: Vec::new(), privacy_policy_url: None }
    }
}

impl Default for Decentralization {
    /// Pessimistic: centralized, with a single operator, until declared otherwise.
    fn default() -> (r: Self)
        ensures
            r.relies_on_centralized_infrastructure,
            r.centralized_providers@.len() == 0,
            r.single_operator_risk,
    {
        Decentralization {
            relies_on_centralized_infrastructure: true,
            centralized_providers: Vec::new(),
            single_operator_risk: true,
        }
    }
}

impl Default for PluginMetadata {
    fn default() -> (r: Self)
        ensures
            r.name@.len() == 0,
            r.version@.len() == 0,
            r.description@.len() == 0,
            !r.openness.open_source,
            r.openness.license is None,
            r.openness.repository_url is None,
            !r.security.audited_contract,
            r.security.audit_reports@.len() == 0,
            !r.security.safe_harbor,
            !r.security.bug_bounty,
            r.security.bug_bounty_url is None,
            r.privacy.reports_data,
            r.privacy.data_collected@.len() == 0,
            r.privacy.privacy_policy_url is None,
            r.decentralization.relies_on_centralized_infrastructure,
            r.decentralization.centralized_providers@.len() == 0,
            r.decentralization.single_operator_risk,
            r.restricted(),
            r.channel() == TrustChannel::Untrusted,
    {
        PluginMetadata {
            name: String::new(),
            version: String::new(),
            description: String::new(),
            openness: Openness::default(),
            security: Security::default(),
            privacy: Privacy::default(),
            decentralization: Decentralization::default(),
        }
    }
}

impl PluginMetadata {
    /// The plugin is not fully open, audited, private and decentralized.
    pub open spec fn restricted(&self) -> bool {
        ||| !self.openness.open_source
        ||| !self.security.audited_contract
        ||| self.privacy.reports_data
        ||| self.decentralization.relies_on_centralized_infrastructure
    }

    /// No centralized infrastructure and no single operator that can halt it.
    pub open spec fn decentralized(&self) -> bool {
        !self.decentralization.relies_on_centralized_infrastructure
            && !self.decentralization.single_operator_risk
    }

    /// The channel that the metadata classifies the plugin into.
    pub open spec fn channel(&self) -> TrustChannel {
        if self.openness.open_source && self.security.audited_contract
            && !self.privacy.reports_data && self.decentralized() {
            TrustChannel::Trusted
        } else if self.openness.open_source {
            TrustChannel::Restricted
        } else {
            TrustChannel::Untrusted
        }
    }

    /// `true` if the plugin carries any trust-relevant restriction, i.e. it is
    /// not fully open/audited/decentralized/private. Analogous to Nix's
    /// `unfree` predicate.
    pub fn has_restrictions(&self) -> (r: bool)
        ensures
            r == self.restricted(),
    {
        !self.openness.open_source || !self.security.audited_contract || self.privacy.reports_data
            || self.decentralization.relies_on_centralized_infrastructure
    }

    /// Compute the coarse trust channel for this plugin.
    pub fn trust_channel(&self) -> (r: TrustChannel)
        ensures
            r == self.channel(),
    {
        let decentralized = !self.decentralization.relies_on_centralized_infrastructure
            && !self.decentralization.single_operator_risk;
        if self.openness.open_source && self.security.audited_contract && !self.privacy.reports_data
            && decentralized {
            TrustChannel::Trusted
        } else if self.openness.open_source {
            TrustChannel::Restricted
        } else {
            TrustChannel::Untrusted
        }
    }
}

/// A plugin lands in the trusted channel exactly when it carries no
/// restriction and no single operator can halt it.
pub proof fn lemma_trusted_iff_unrestricted(m: PluginMetadata)
    ensures
        (m.channel() == TrustChannel::Trusted) <==> (!m.restricted()
            && !m.decentralization.single_operator_risk),
{
}

/// The untrusted channel holds exactly the plugins that are not open source;
/// every open-source plugin that is not trusted is restricted.
pub proof fn lemma_channel_by_openness(m: PluginMetadata)
    ensures
        (m.channel() == TrustChannel::Untrusted) <==> !m.openness.open_source,
        (m.channel() == TrustChannel::Restricted) <==> (m.openness.open_source && !(
        m.channel() == TrustChannel::Trusted)),
{
}

/// Every plugin in the untrusted channel carries a restriction.
pub proof fn lemma_untrusted_is_restricted(m: PluginMetadata)
    requires
        m.channel() == TrustChannel::Untrusted,
    ensures
        m.restricted(),
{
}

/// Declaring fewer positive properties never moves a plugin to a better
/// channel: if `weaker` claims no property that `m` does not also claim, its
/// channel is no better than that of `m`.
pub proof fn lemma_channel_monotone(m: PluginMetadata, weaker: PluginMetadata)
    requires
        weaker.openness.open_source ==> m.openness.open_source,
        weaker.security.audited_contract ==> m.security.audited_contract,
        !weaker.privacy.reports_data ==> !m.privacy.reports_data,
        !weaker.decentralization.relies_on_centralized_infrastructure
            ==> !m.decentralization.relies_on_centralized_infrastructure,
        !weaker.decentralization.single_operator_risk ==> !m.decentralization.single_operator_risk,
    ensures
        channel_rank(weaker.channel()) <= channel_rank(m.channel()),
        m.restricted() ==> weaker.restricted(),
{
}

/// The order of the channels, from worst to best.
pub open spec fn channel_rank(c: TrustChannel) -> int {
    match c {
        TrustChannel::Untrusted => 0,
        TrustChannel::Restricted => 1,
        TrustChannel::Trusted => 2,
    }
}

} // verus!
