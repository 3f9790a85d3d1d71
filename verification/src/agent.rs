//! The summary of a client's user agent.

use vstd::prelude::*;
use vstd::string::StringExecFns;

verus! {

/// What the user agent parser tells of a browser.
#[derive(Debug, PartialEq, Eq)]
pub struct AgentInfo {
    pub vendor: String,
    pub name: String,
    pub version: String,
    pub os: String,
    pub os_version: String,
}

/// The contents of an [`AgentInfo`].
pub struct AgentInfoView {
    pub vendor: Seq<char>,
    pub name: Seq<char>,
    pub version: Seq<char>,
    pub os: Seq<char>,
    pub os_version: Seq<char>,
}

impl View for AgentInfo {
    type V = AgentInfoView;

    open spec fn view(&self) -> AgentInfoView {
        AgentInfoView {
            vendor: self.vendor@,
            name: self.name@,
            version: self.version@,
            os: self.os@,
            os_version: self.os_version@,
        }
    }
}

/// The contents of an optional [`AgentInfo`].
pub open spec fn opt_info(info: Option<AgentInfo>) -> Option<AgentInfoView> {
    match info {
        Some(i) => Some(i@),
        None => None,
    }
}

/// What woothee's `Parser::parse` finds in the user agent string `agent`:
/// the vendor, name and version of the browser and the name and version of
/// the system, or nothing where it does not know the agent.
pub uninterp spec fn woothee_parse(agent: Seq<char>) -> Option<AgentInfoView>;

/// Runs woothee's `Parser::parse` on `agent` and copies out the five fields
/// that the summary shows. Taken on trust: that the parser's answer depends
/// on the text alone, as it matches the text against fixed patterns and a
/// fixed table. What the answer is, is left to woothee.
#[verifier::external_body]
fn parse_agent(agent: &str) -> (info: Option<AgentInfo>)
    ensures
        opt_info(info) == woothee_parse(agent@),
{
    woothee::parser::Parser::new().parse(agent).map(
        |ua| AgentInfo {
            vendor: ua.vendor.to_string(),
            name: ua.name.to_string(),
            version: ua.version.to_string(),
            os: ua.os.to_string(),
            os_version: ua.os_version.to_string(),
        },
    )
}

/// The two lines that sum up a browser: vendor, name and version, and below
/// them the system and its version.
pub open spec fn summary(info: AgentInfoView) -> Seq<char> {
    info.vendor + seq![' '] + info.name + seq![' '] + info.version + seq!['\n'] + info.os
        + seq![' '] + info.os_version
}

/// The simplified form of the user agent string `agent`, given what the
/// parser found in it: the summary of what it found, or the string itself
/// where it found nothing.
pub open spec fn simplified(agent: Seq<char>, parsed: Option<AgentInfoView>) -> Seq<char> {
    match parsed {
        Some(info) => summary(info),
        None => agent,
    }
}

/// Writes the two-line summary of a browser.
pub fn summarize(info: &AgentInfo) -> (text: String)
    ensures
        text@ == summary(info@),
{
    proof {
        reveal_strlit(" ");
        reveal_strlit("\n");
    }
    let mut text = info.vendor.clone();
    text.append(" ");
    text.append(info.name.as_str());
    text.append(" ");
    text.append(info.version.as_str());
    text.append("\n");
    text.append(info.os.as_str());
    text.append(" ");
    text.append(info.os_version.as_str());
    assert(" "@ =~= seq![' ']);
    assert("\n"@ =~= seq!['\n']);
    text
}

/// Reduces a user agent string to its simplified form, given what the
/// parser found in it.
pub fn simplify_with(user_agent: String, parsed: Option<AgentInfo>) -> (text: String)
    ensures
        text@ == simplified(user_agent@, opt_info(parsed)),
{
    match parsed {
        Some(info) => summarize(&info),
        None => user_agent,
    }
}

/// Attempt to parse the client's user agent string, and reduce it to a
/// simplified form.
pub fn simplify_user_agent(user_agent: String) -> (text: String)
    ensures
        text@ == simplified(user_agent@, woothee_parse(user_agent@)),
{
    let parsed = parse_agent(user_agent.as_str());
    simplify_with(user_agent, parsed)
}

} // verus!
