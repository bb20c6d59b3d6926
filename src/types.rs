//! Typed pieces of the Anthropic Messages request that the validator reads.

use crate::json::{lookup, str_eq, str_in, Json, JsonV};
use vstd::prelude::*;

verus! {

/// The role of a message sender.
#[derive(Debug, Clone, Copy, PartialEq, Eq, Structural)]
pub enum AnthropicRole {
    User,
    Assistant,
}

/// Image source of an image content block.
#[derive(Debug, Clone)]
pub struct AnthropicImageSource {
    pub source_type: String,
    pub media_type: String,
    pub data: String,
}

/// Tool choice modes.
#[derive(Debug, Clone, Copy, PartialEq, Eq, Structural)]
pub enum AnthropicToolChoiceMode {
    Auto,
    Any,
    NoTools,
    Tool,
}

/// A tool choice given by mode alone.
#[derive(Debug, Clone, Copy, PartialEq, Eq, Structural)]
pub struct AnthropicToolChoiceSimple {
    pub choice_type: AnthropicToolChoiceMode,
}

/// A tool choice that names a tool.
#[derive(Debug, Clone)]
pub struct AnthropicToolChoiceNamed {
    pub choice_type: AnthropicToolChoiceMode,
    pub name: String,
}

/// Tool choice specification.
#[derive(Debug, Clone)]
pub enum AnthropicToolChoice {
    Named(AnthropicToolChoiceNamed),
    Simple(AnthropicToolChoiceSimple),
}

pub open spec fn role_of(o: Option<JsonV>) -> Option<AnthropicRole> {
    match o {
        Some(JsonV::Str(s)) => if s == "user"@ {
            Some(AnthropicRole::User)
        } else if s == "assistant"@ {
            Some(AnthropicRole::Assistant)
        } else {
            None
        },
        _ => None,
    }
}

pub open spec fn valid_role(o: Option<JsonV>) -> bool {
    role_of(o) is Some
}

/// Lower-case name of a role.
pub open spec fn role_name_spec(r: AnthropicRole) -> Seq<char> {
    match r {
        AnthropicRole::User => "user"@,
        AnthropicRole::Assistant => "assistant"@,
    }
}

pub open spec fn mode_of(o: Option<JsonV>) -> Option<AnthropicToolChoiceMode> {
    match o {
        Some(JsonV::Str(s)) => if s == "auto"@ {
            Some(AnthropicToolChoiceMode::Auto)
        } else if s == "any"@ {
            Some(AnthropicToolChoiceMode::Any)
        } else if s == "none"@ {
            Some(AnthropicToolChoiceMode::NoTools)
        } else if s == "tool"@ {
            Some(AnthropicToolChoiceMode::Tool)
        } else {
            None
        },
        _ => None,
    }
}

pub open spec fn valid_image_source(o: Option<JsonV>) -> bool {
    match o {
        Some(JsonV::Object(es)) => (lookup(es, "type"@) matches Some(JsonV::Str(_))) && (lookup(
            es,
            "media_type"@,
        ) matches Some(JsonV::Str(_))) && (lookup(es, "data"@) matches Some(JsonV::Str(_))),
        _ => false,
    }
}

/// A tool choice is absent, `null`, or an object whose `type` is a mode.
pub open spec fn valid_tool_choice(o: Option<JsonV>) -> bool {
    match o {
        None => true,
        Some(JsonV::Null) => true,
        Some(JsonV::Object(es)) => mode_of(lookup(es, "type"@)) is Some,
        _ => false,
    }
}

pub fn role_name(r: AnthropicRole) -> (s: &'static str)
    ensures
        s@ == role_name_spec(r),
{
    proof {
        reveal_strlit("user");
        reveal_strlit("assistant");
    }
    match r {
        AnthropicRole::User => "user",
        AnthropicRole::Assistant => "assistant",
    }
}

/// Reads a role.
pub fn check_role(o: Option<&Json>) -> (r: Option<AnthropicRole>)
    ensures
        r == role_of(crate::json::opt_view(o)),
{
    proof {
        reveal_strlit("user");
        reveal_strlit("assistant");
    }
    match str_in(o) {
        Some(s) => {
            if str_eq(s.as_str(), "user") {
                Some(AnthropicRole::User)
            } else if str_eq(s.as_str(), "assistant") {
                Some(AnthropicRole::Assistant)
            } else {
                None
            }
        },
        None => None,
    }
}

fn check_mode(o: Option<&Json>) -> (r: Option<AnthropicToolChoiceMode>)
    ensures
        r == mode_of(crate::json::opt_view(o)),
{
    proof {
        reveal_strlit("auto");
        reveal_strlit("any");
        reveal_strlit("none");
        reveal_strlit("tool");
    }
    match str_in(o) {
        Some(s) => {
            if str_eq(s.as_str(), "auto") {
                Some(AnthropicToolChoiceMode::Auto)
            } else if str_eq(s.as_str(), "any") {
                Some(AnthropicToolChoiceMode::Any)
            } else if str_eq(s.as_str(), "none") {
                Some(AnthropicToolChoiceMode::NoTools)
            } else if str_eq(s.as_str(), "tool") {
                Some(AnthropicToolChoiceMode::Tool)
            } else {
                None
            }
        },
        None => None,
    }
}

/// Reads an image source.
pub fn check_image_source(o: Option<&Json>) -> (r: Option<AnthropicImageSource>)
    ensures
        r is Some <==> valid_image_source(crate::json::opt_view(o)),
{
    match o {
        Some(Json::Object(_)) => {
            let j = o.unwrap();
            match (str_in(j.get("type")), str_in(j.get("media_type")), str_in(j.get("data"))) {
                (Some(t), Some(m), Some(d)) => Some(
                    AnthropicImageSource {
                        source_type: t.clone(),
                        media_type: m.clone(),
                        data: d.clone(),
                    },
                ),
                _ => None,
            }
        },
        _ => None,
    }
}

/// Reads a tool choice. `Ok(None)` where it is absent or `null`; a named
/// choice where a `name` string is given, else a choice by mode.
pub fn check_tool_choice(o: Option<&Json>) -> (r: Result<Option<AnthropicToolChoice>, ()>)
    ensures
        r is Ok <==> valid_tool_choice(crate::json::opt_view(o)),
{
    match o {
        None => Ok(None),
        Some(Json::Null) => Ok(None),
        Some(Json::Object(_)) => {
            let j = o.unwrap();
            match check_mode(j.get("type")) {
                Some(mode) => match str_in(j.get("name")) {
                    Some(n) => Ok(
                        Some(
                            AnthropicToolChoice::Named(
                                AnthropicToolChoiceNamed { choice_type: mode, name: n.clone() },
                            ),
                        ),
                    ),
                    None => Ok(
                        Some(
                            AnthropicToolChoice::Simple(
                                AnthropicToolChoiceSimple { choice_type: mode },
                            ),
                        ),
                    ),
                },
                None => Err(()),
            }
        },
        _ => Err(()),
    }
}

} // verus!
