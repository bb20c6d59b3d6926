//! Runtime proxy mode, held in a lock-free cell that every request reads.

use std::sync::atomic::{AtomicU8, Ordering};
use std::sync::Arc;
use vstd::prelude::*;

verus! {

/// Operating mode of the proxy.
#[derive(Debug, Clone, Copy, PartialEq, Eq, Structural)]
pub enum ProxyMode {
    /// Forward to the upstream Anthropic service only.
    AnthropicOnly,
    /// Forward to the self-hosted target only.
    TargetOnly,
    /// Forward to Anthropic and mirror each request to the target.
    Compare,
}

impl ProxyMode {
    /// The one-byte code under which a mode is stored.
    pub open spec fn code_spec(self) -> u8 {
        match self {
            ProxyMode::AnthropicOnly => 0,
            ProxyMode::TargetOnly => 1,
            ProxyMode::Compare => 2,
        }
    }

    /// The mode a stored byte stands for; unknown bytes read as `Compare`.
    pub open spec fn from_code(v: u8) -> ProxyMode {
        if v == 0 {
            ProxyMode::AnthropicOnly
        } else if v == 1 {
            ProxyMode::TargetOnly
        } else {
            ProxyMode::Compare
        }
    }

    /// The wire name of a mode (kebab case).
    pub open spec fn name_spec(self) -> Seq<char> {
        match self {
            ProxyMode::AnthropicOnly => "anthropic-only"@,
            ProxyMode::TargetOnly => "target"@,
            ProxyMode::Compare => "compare"@,
        }
    }

    pub fn code(self) -> (r: u8)
        ensures
            r == self.code_spec(),
    {
        match self {
            ProxyMode::AnthropicOnly => 0,
            ProxyMode::TargetOnly => 1,
            ProxyMode::Compare => 2,
        }
    }

    pub fn from_u8(v: u8) -> (r: ProxyMode)
        ensures
            r == ProxyMode::from_code(v),
    {
        match v {
            0 => ProxyMode::AnthropicOnly,
            1 => ProxyMode::TargetOnly,
            _ => ProxyMode::Compare,
        }
    }

    /// The wire name of this mode.
    pub fn name(self) -> (r: &'static str)
        ensures
            r@ == self.name_spec(),
    {
        proof {
            reveal_strlit("anthropic-only");
            reveal_strlit("target");
            reveal_strlit("compare");
        }
        match self {
            ProxyMode::AnthropicOnly => "anthropic-only",
            ProxyMode::TargetOnly => "target",
            ProxyMode::Compare => "compare",
        }
    }
}

/// Thread-safe runtime mode; clones share one cell.
#[derive(Clone)]
pub struct RuntimeMode {
    inner: Arc<AtomicU8>,
}

impl RuntimeMode {
    pub fn new(mode: ProxyMode) -> (r: RuntimeMode) {
        RuntimeMode { inner: Arc::new(AtomicU8::new(mode.code())) }
    }

    /// The current mode. Another thread may have stored any mode since the
    /// last call, so all that holds is that the result is the mode of some
    /// stored byte.
    pub fn get(&self) -> (r: ProxyMode)
        ensures
            exists|c: u8| r == ProxyMode::from_code(c),
    {
        let c = self.inner.load(Ordering::Relaxed);
        ProxyMode::from_u8(c)
    }

    pub fn set(&self, mode: ProxyMode) {
        self.inner.store(mode.code(), Ordering::Relaxed);
    }
}

} // verus!
