//! The requests that are sent to the app server in the background.
use vstd::prelude::*;

verus! {

/// A request to the app server.
#[derive(Clone, Copy, Debug, PartialEq, Eq, Structural)]
pub enum AppRequest {
    /// The inventory of MCP servers.
    McpServerStatusList,
    /// The rate limits of the account.
    AccountRateLimits,
    /// An enhancement of a prompt.
    PromptEnhance,
    /// A mail that asks for credits.
    AddCreditsNudgeEmail,
    /// The skills at the start.
    SkillsList,
    /// The plugins.
    PluginList,
    /// The hooks.
    HooksList,
    /// One plugin.
    PluginRead,
    /// A marketplace more.
    MarketplaceAdd,
    /// A marketplace less.
    MarketplaceRemove,
    /// A newer version of a marketplace.
    MarketplaceUpgrade,
    /// A plugin more.
    PluginInstall,
    /// A plugin less.
    PluginUninstall,
    /// A plugin switched on or off.
    PluginEnable,
    /// A hook switched on or off.
    HookEnable,
    /// A hook trusted.
    HookTrust,
    /// A feedback.
    FeedbackUpload,
}

impl AppRequest {
    /// What the identifiers of such requests start with.
    pub open spec fn prefix(self) -> Seq<char> {
        match self {
            AppRequest::McpServerStatusList => "mcp-inventory-"@,
            AppRequest::AccountRateLimits => "account-rate-limits-"@,
            AppRequest::PromptEnhance => "prompt-pilot-"@,
            AppRequest::AddCreditsNudgeEmail => "add-credits-nudge-"@,
            AppRequest::SkillsList => "startup-skills-list-"@,
            AppRequest::PluginList => "plugin-list-"@,
            AppRequest::HooksList => "hooks-list-"@,
            AppRequest::PluginRead => "plugin-read-"@,
            AppRequest::MarketplaceAdd => "marketplace-add-"@,
            AppRequest::MarketplaceRemove => "marketplace-remove-"@,
            AppRequest::MarketplaceUpgrade => "marketplace-upgrade-"@,
            AppRequest::PluginInstall => "plugin-install-"@,
            AppRequest::PluginUninstall => "plugin-uninstall-"@,
            AppRequest::PluginEnable => "plugin-enable-"@,
            AppRequest::HookEnable => "hooks-config-write-"@,
            AppRequest::HookTrust => "hooks-config-write-"@,
            AppRequest::FeedbackUpload => "feedback-upload-"@,
        }
    }

    /// What the identifiers of such requests start with.
    pub fn id_prefix(self) -> (r: &'static str)
        ensures
            r@ == self.prefix(),
    {
        match self {
            AppRequest::McpServerStatusList => "mcp-inventory-",
            AppRequest::AccountRateLimits => "account-rate-limits-",
            AppRequest::PromptEnhance => "prompt-pilot-",
            AppRequest::AddCreditsNudgeEmail => "add-credits-nudge-",
            AppRequest::SkillsList => "startup-skills-list-",
            AppRequest::PluginList => "plugin-list-",
            AppRequest::HooksList => "hooks-list-",
            AppRequest::PluginRead => "plugin-read-",
            AppRequest::MarketplaceAdd => "marketplace-add-",
            AppRequest::MarketplaceRemove => "marketplace-remove-",
            AppRequest::MarketplaceUpgrade => "marketplace-upgrade-",
            AppRequest::PluginInstall => "plugin-install-",
            AppRequest::PluginUninstall => "plugin-uninstall-",
            AppRequest::PluginEnable => "plugin-enable-",
            AppRequest::HookEnable => "hooks-config-write-",
            AppRequest::HookTrust => "hooks-config-write-",
            AppRequest::FeedbackUpload => "feedback-upload-",
        }
    }

    /// What is said of such a request that failed.
    pub open spec fn context(self) -> Seq<char> {
        match self {
            AppRequest::McpServerStatusList => "mcpServerStatus/list failed in TUI"@,
            AppRequest::AccountRateLimits => "account/rateLimits/read failed in TUI"@,
            AppRequest::PromptEnhance => "thread/prompt/enhance failed in TUI"@,
            AppRequest::AddCreditsNudgeEmail => "account/sendAddCreditsNudgeEmail failed in TUI"@,
            AppRequest::SkillsList => "skills/list failed in TUI"@,
            AppRequest::PluginList => "plugin/list failed in TUI"@,
            AppRequest::HooksList => "hooks/list failed in TUI"@,
            AppRequest::PluginRead => "plugin/read failed in TUI"@,
            AppRequest::MarketplaceAdd => "marketplace/add failed in TUI"@,
            AppRequest::MarketplaceRemove => "marketplace/remove failed in TUI"@,
            AppRequest::MarketplaceUpgrade => "marketplace/upgrade failed in TUI"@,
            AppRequest::PluginInstall => "plugin/install failed in TUI"@,
            AppRequest::PluginUninstall => "plugin/uninstall failed in TUI"@,
            AppRequest::PluginEnable => "config/value/write failed while updating plugin enablement in TUI"@,
            AppRequest::HookEnable => "config/batchWrite failed while updating hook enablement in TUI"@,
            AppRequest::HookTrust => "config/batchWrite failed while updating hook trust in TUI"@,
            AppRequest::FeedbackUpload => "feedback/upload failed in TUI"@,
        }
    }

    /// What is said of such a request that failed.
    pub fn failure_context(self) -> (r: &'static str)
        ensures
            r@ == self.context(),
    {
        match self {
            AppRequest::McpServerStatusList => "mcpServerStatus/list failed in TUI",
            AppRequest::AccountRateLimits => "account/rateLimits/read failed in TUI",
            AppRequest::PromptEnhance => "thread/prompt/enhance failed in TUI",
            AppRequest::AddCreditsNudgeEmail => "account/sendAddCreditsNudgeEmail failed in TUI",
            AppRequest::SkillsList => "skills/list failed in TUI",
            AppRequest::PluginList => "plugin/list failed in TUI",
            AppRequest::HooksList => "hooks/list failed in TUI",
            AppRequest::PluginRead => "plugin/read failed in TUI",
            AppRequest::MarketplaceAdd => "marketplace/add failed in TUI",
            AppRequest::MarketplaceRemove => "marketplace/remove failed in TUI",
            AppRequest::MarketplaceUpgrade => "marketplace/upgrade failed in TUI",
            AppRequest::PluginInstall => "plugin/install failed in TUI",
            AppRequest::PluginUninstall => "plugin/uninstall failed in TUI",
            AppRequest::PluginEnable => "config/value/write failed while updating plugin enablement in TUI",
            AppRequest::HookEnable => "config/batchWrite failed while updating hook enablement in TUI",
            AppRequest::HookTrust => "config/batchWrite failed while updating hook trust in TUI",
            AppRequest::FeedbackUpload => "feedback/upload failed in TUI",
        }
    }

    /// What precedes that where the failure is shown.
    pub open spec fn heading(self) -> Seq<char> {
        match self {
            AppRequest::McpServerStatusList => ""@,
            AppRequest::AccountRateLimits => ""@,
            AppRequest::PromptEnhance => ""@,
            AppRequest::AddCreditsNudgeEmail => ""@,
            AppRequest::SkillsList => ""@,
            AppRequest::PluginList => ""@,
            AppRequest::HooksList => ""@,
            AppRequest::PluginRead => ""@,
            AppRequest::MarketplaceAdd => "Failed to add marketplace: "@,
            AppRequest::MarketplaceRemove => "Failed to remove marketplace: "@,
            AppRequest::MarketplaceUpgrade => "Failed to upgrade marketplace: "@,
            AppRequest::PluginInstall => "Failed to install plugin: "@,
            AppRequest::PluginUninstall => "Failed to uninstall plugin: "@,
            AppRequest::PluginEnable => "Failed to update plugin config: "@,
            AppRequest::HookEnable => "Failed to update hook config: "@,
            AppRequest::HookTrust => "Failed to trust hook: "@,
            AppRequest::FeedbackUpload => ""@,
        }
    }

    /// What precedes that where the failure is shown.
    pub fn failure_heading(self) -> (r: &'static str)
        ensures
            r@ == self.heading(),
    {
        match self {
            AppRequest::McpServerStatusList => "",
            AppRequest::AccountRateLimits => "",
            AppRequest::PromptEnhance => "",
            AppRequest::AddCreditsNudgeEmail => "",
            AppRequest::SkillsList => "",
            AppRequest::PluginList => "",
            AppRequest::HooksList => "",
            AppRequest::PluginRead => "",
            AppRequest::MarketplaceAdd => "Failed to add marketplace: ",
            AppRequest::MarketplaceRemove => "Failed to remove marketplace: ",
            AppRequest::MarketplaceUpgrade => "Failed to upgrade marketplace: ",
            AppRequest::PluginInstall => "Failed to install plugin: ",
            AppRequest::PluginUninstall => "Failed to uninstall plugin: ",
            AppRequest::PluginEnable => "Failed to update plugin config: ",
            AppRequest::HookEnable => "Failed to update hook config: ",
            AppRequest::HookTrust => "Failed to trust hook: ",
            AppRequest::FeedbackUpload => "",
        }
    }

    /// Whether the cause of a failure is shown as well.
    pub open spec fn shows_cause(self) -> bool {
        self == AppRequest::PromptEnhance || self == AppRequest::SkillsList
    }

    /// The identifier of a request with this unique part.
    pub fn request_id(self, unique: &str) -> (r: String)
        ensures
            r@ == self.prefix() + unique@,
    {
        let mut out = self.id_prefix().to_owned();
        out.append(unique);
        out
    }

    /// What is shown of a request that failed for this cause.
    pub open spec fn shown_failure(self, cause: Seq<char>) -> Seq<char> {
        if self.shows_cause() {
            self.heading() + self.context() + ": "@ + cause
        } else {
            self.heading() + self.context()
        }
    }

    /// What is shown of a request that failed for this cause.
    pub fn failure_message(self, cause: &str) -> (r: String)
        ensures
            r@ == self.shown_failure(cause@),
    {
        let mut out = self.failure_heading().to_owned();
        out.append(self.failure_context());
        match self {
            AppRequest::PromptEnhance | AppRequest::SkillsList => {
                out.append(": ");
                out.append(cause);
            },
            _ => {},
        }
        out
    }

    /// What is shown of a request that cannot be made from a relative directory.
    pub open spec fn shown_relative_cwd(self) -> Seq<char> {
        if self == AppRequest::MarketplaceAdd {
            "Failed to add marketplace: marketplace/add cwd must be absolute"@
        } else {
            "plugin list cwd must be absolute"@
        }
    }

    /// What is shown of a request that cannot be made from a relative directory.
    pub fn relative_cwd_message(self) -> (r: String)
        requires
            self == AppRequest::MarketplaceAdd || self == AppRequest::PluginList,
        ensures
            r@ == self.shown_relative_cwd(),
    {
        match self {
            AppRequest::MarketplaceAdd => {
                "Failed to add marketplace: marketplace/add cwd must be absolute".to_owned()
            },
            _ => "plugin list cwd must be absolute".to_owned(),
        }
    }
}

/// The cause of a failure is the end of what is shown where a prompt is enhanced or the skills are
/// listed, and changes nothing of what is shown elsewhere. What is shown says which request failed.
pub proof fn law_shown_failure(request: AppRequest, cause: Seq<char>, other: Seq<char>)
    ensures
        request == AppRequest::PromptEnhance || request == AppRequest::SkillsList ==> ({
            let shown = request.shown_failure(cause);
            &&& shown == request.context() + ": "@ + cause
        }),
        request != AppRequest::PromptEnhance && request != AppRequest::SkillsList
            ==> request.shown_failure(cause) == request.shown_failure(other)
            && crate::text::finishes_with(request.shown_failure(cause), request.context()),
{
    reveal_strlit("");
    let head = request.heading();
    let context = request.context();
    assert((head + context).skip(head.len() as int) =~= context);
    if request == AppRequest::PromptEnhance || request == AppRequest::SkillsList {
        assert(head + context =~= context);
    }
}

/// Requests that change what is installed or configured are shown to have failed under a heading;
/// the others are not.
pub proof fn law_failure_heading(request: AppRequest)
    ensures
        request.heading().len() > 0 <==> (request == AppRequest::MarketplaceAdd || request
            == AppRequest::MarketplaceRemove || request == AppRequest::MarketplaceUpgrade || request
            == AppRequest::PluginInstall || request == AppRequest::PluginUninstall || request
            == AppRequest::PluginEnable || request == AppRequest::HookEnable || request
            == AppRequest::HookTrust),
        request.heading().len() > 0 ==> crate::text::begins_with(
            request.heading(),
            "Failed to "@,
        ) && crate::text::finishes_with(request.heading(), ": "@),
{
    reveal_strlit("");
    reveal_strlit(": ");
    reveal_strlit("Failed to ");
    reveal_strlit("Failed to add marketplace: ");
    reveal_strlit("Failed to remove marketplace: ");
    reveal_strlit("Failed to upgrade marketplace: ");
    reveal_strlit("Failed to install plugin: ");
    reveal_strlit("Failed to uninstall plugin: ");
    reveal_strlit("Failed to update plugin config: ");
    reveal_strlit("Failed to update hook config: ");
    reveal_strlit("Failed to trust hook: ");
    let head = request.heading();
    if head.len() > 0 {
        assert(head.take(10) =~= "Failed to "@);
        assert(head.skip(head.len() - 2) =~= ": "@);
    }
}

} // verus!
