//! The shim descriptor data model.
//!
//! A `ShimConfig` is the persisted configuration of one installed shim: the
//! target program, the arguments prepended to every invocation, an ordered
//! list of environment transformations, and the launch flags.

use vstd::prelude::*;

verus! {

/// The kind of one environment transformation.
#[allow(non_camel_case_types)]
#[derive(Clone, Copy, Debug, PartialEq, Eq, Structural)]
pub enum ShimConfigEnvAction {
    /// Give the variable exactly the configured value.
    SET,
    /// Remove the variable entirely.
    CLEAR,
    /// Join the current value, the separator, and the configured value.
    APPEND,
    /// Join the configured value, the separator, and the current value.
    PREPEND,
}

/// One entry of a descriptor's ordered environment-action list.
#[derive(Debug, PartialEq, Eq)]
pub struct ShimConfigEnvActionItem {
    /// Name of the environment variable the action touches.
    pub var: String,
    /// What the action does to it.
    pub action: ShimConfigEnvAction,
    /// Payload value; ignored by `Clear`.
    pub value: String,
    /// Joining separator; used only by `Append` and `Prepend`.
    pub separator: String,
}

/// Mathematical model of one environment action.
#[verifier::ext_equal]
pub ghost struct ActionModel {
    pub var: Seq<char>,
    pub action: ShimConfigEnvAction,
    pub value: Seq<char>,
    pub separator: Seq<char>,
}

impl View for ShimConfigEnvActionItem {
    type V = ActionModel;

    open spec fn view(&self) -> ActionModel {
        ActionModel {
            var: self.var@,
            action: self.action,
            value: self.value@,
            separator: self.separator@,
        }
    }
}

/// A shim descriptor: everything the launcher needs to run the target.
#[derive(Debug, PartialEq, Eq)]
pub struct ShimConfig {
    /// Absolute path of the target program, fixed at creation time.
    pub path: String,
    /// Arguments prepended to every invocation.
    pub args: Vec<String>,
    /// Ordered environment transformations, applied sequentially.
    pub env: Vec<ShimConfigEnvActionItem>,
    /// Whether the windowed stand-in variant is installed for this shim.
    pub win: bool,
    /// Launch the target without a visible console and with null streams.
    pub hidden: bool,
    /// Wait for the target and propagate its exit code; false detaches.
    pub wait: bool,
    /// Run the placeholder expander over the target path at launch.
    pub env_expand_path: bool,
    /// Run the placeholder expander over each argument at launch.
    pub env_expand_args: bool,
}

/// Mathematical model of a shim descriptor.
#[verifier::ext_equal]
pub ghost struct ConfigModel {
    pub path: Seq<char>,
    pub args: Seq<Seq<char>>,
    pub env: Seq<ActionModel>,
    pub win: bool,
    pub hidden: bool,
    pub wait: bool,
    pub env_expand_path: bool,
    pub env_expand_args: bool,
}

impl View for ShimConfig {
    type V = ConfigModel;

    open spec fn view(&self) -> ConfigModel {
        ConfigModel {
            path: self.path@,
            args: self.args@.map_values(|a: String| a@),
            env: self.env@.map_values(|a: ShimConfigEnvActionItem| a@),
            win: self.win,
            hidden: self.hidden,
            wait: self.wait,
            env_expand_path: self.env_expand_path,
            env_expand_args: self.env_expand_args,
        }
    }
}

/// A string that fits on one line of the descriptor document.
pub open spec fn wf_string(s: Seq<char>) -> bool {
    forall|i: int| 0 <= i < s.len() ==> s[i] != '\n'
}

/// A well-formed environment action: named variable, line-sized strings.
pub open spec fn wf_action(a: ActionModel) -> bool {
    &&& a.var.len() > 0
    &&& wf_string(a.var)
    &&& wf_string(a.value)
    &&& wf_string(a.separator)
}

/// A well-formed descriptor: non-empty target, line-sized strings, and
/// well-formed actions throughout.
pub open spec fn wf_config(c: ConfigModel) -> bool {
    &&& c.path.len() > 0
    &&& wf_string(c.path)
    &&& forall|i: int| 0 <= i < c.args.len() ==> wf_string(#[trigger] c.args[i])
    &&& forall|i: int| 0 <= i < c.env.len() ==> wf_action(#[trigger] c.env[i])
}

} // verus!
