use vstd::prelude::*;
use vstd::string::*;
use crate::rules::{
    rules_from_vec, rule_table, build_default_without, build_default_except,
    default_without_names, default_except_names,
};

verus! {

/// The rule lists as the rules endpoint (or the embedded rules file) gives them.
pub struct RulesResponse {
    pub without: Option<Vec<String>>,
    pub except: Option<Vec<String>>,
}

/// Resolved rule tables returned after loading rules from any source.
pub struct RemoteRules {
    pub without: Option<Vec<Vec<String>>>,
    pub except: Option<Vec<Vec<String>>>,
    /// Human-readable description of where the data came from.
    pub source: String,
}

/// The table view of an optional table.
pub open spec fn opt_table(t: Option<Vec<Vec<String>>>) -> Option<Seq<Seq<Seq<char>>>> {
    match t {
        Some(v) => Some(v.deep_view()),
        None => None,
    }
}

/// The table built from an optional rule list: none for a missing or empty
/// list, otherwise each rule broadcast across `cols` columns.
pub open spec fn table_from_list(list: Option<Vec<String>>, cols: nat) -> Option<Seq<Seq<Seq<char>>>> {
    match list {
        Some(v) => if v@.len() > 0 {
            Some(rule_table(v.deep_view(), cols))
        } else {
            None
        },
        None => None,
    }
}

/// A rule list that is missing or empty.
pub open spec fn list_is_blank(list: Option<Vec<String>>) -> bool {
    match list {
        Some(v) => v@.len() == 0,
        None => true,
    }
}

fn table_from(list: Option<Vec<String>>, cols: usize) -> (t: Option<Vec<Vec<String>>>)
    ensures
        opt_table(t) == table_from_list(list, cols as nat),
{
    match list {
        Some(v) => {
            if v.len() > 0 {
                Some(rules_from_vec(v.as_slice(), cols))
            } else {
                None
            }
        },
        None => None,
    }
}

/// The rule tables of a response, with `source` recorded.
pub fn build_result(data: RulesResponse, cols: usize, source: String) -> (r: RemoteRules)
    ensures
        opt_table(r.without) == table_from_list(data.without, cols as nat),
        opt_table(r.except) == table_from_list(data.except, cols as nat),
        r.source@ == source@,
{
    let without = table_from(data.without, cols);
    let except = table_from(data.except, cols);
    RemoteRules { without, except, source }
}

/// Accepts a response of the rules endpoint at `url`: an error ("empty
/// response") when both lists are missing or empty, otherwise its tables,
/// recorded as coming from "URL: <url>".
pub fn url_rules(data: RulesResponse, cols: usize, url: &str) -> (r: Result<RemoteRules, String>)
    ensures
        (list_is_blank(data.without) && list_is_blank(data.except)) ==> (r matches Err(e) && e@
            == "empty response"@),
        !(list_is_blank(data.without) && list_is_blank(data.except)) ==> (r matches Ok(rules)
            && opt_table(rules.without) == table_from_list(data.without, cols as nat)
            && opt_table(rules.except) == table_from_list(data.except, cols as nat)
            && rules.source@ == "URL: "@ + url@),
{
    let without_blank = match &data.without {
        Some(v) => v.len() == 0,
        None => true,
    };
    let except_blank = match &data.except {
        Some(v) => v.len() == 0,
        None => true,
    };
    if without_blank && except_blank {
        return Err("empty response".to_owned());
    }
    let mut source = "URL: ".to_owned();
    source.append(url);
    Ok(build_result(data, cols, source))
}

/// The fallback chain for loading rules: the rules from the URL when they
/// came, else the embedded rules file when it parsed, else the built-in
/// defaults.
pub fn resolve_rules(
    from_url: Option<RemoteRules>,
    embedded: Option<RulesResponse>,
    cols: usize,
) -> (r: RemoteRules)
    ensures
        from_url is Some ==> r == from_url.unwrap(),
        (from_url is None && embedded is Some) ==> opt_table(r.without) == table_from_list(
            embedded.unwrap().without,
            cols as nat,
        ) && opt_table(r.except) == table_from_list(embedded.unwrap().except, cols as nat)
            && r.source@ == "embedded log_sys.json (project file)"@,
        (from_url is None && embedded is None) ==> opt_table(r.without) == Some(
            rule_table(default_without_names(), cols as nat),
        ) && opt_table(r.except) == Some(rule_table(default_except_names(), cols as nat))
            && r.source@ == "built-in defaults"@,
{
    match from_url {
        Some(rules) => rules,
        None => match embedded {
            Some(data) => build_result(
                data,
                cols,
                "embedded log_sys.json (project file)".to_owned(),
            ),
            None => RemoteRules {
                without: Some(build_default_without(cols)),
                except: Some(build_default_except(cols)),
                source: "built-in defaults".to_owned(),
            },
        },
    }
}

/// Puts the loaded tables into the settings dialog's tables and returns the
/// status message shown under them.
pub fn apply_remote_rules(
    rules: RemoteRules,
    without: &mut Vec<Vec<String>>,
    except: &mut Vec<Vec<String>>,
) -> (message: String)
    ensures
        opt_table(rules.without) is Some ==> Some(final(without).deep_view()) == opt_table(
            rules.without,
        ),
        opt_table(rules.without) is None ==> *final(without) == *old(without),
        opt_table(rules.except) is Some ==> Some(final(except).deep_view()) == opt_table(
            rules.except,
        ),
        opt_table(rules.except) is None ==> *final(except) == *old(except),
        message@ == if rules.without is Some || rules.except is Some {
            "Rules loaded from API."@
        } else {
            "No valid rules in API response."@
        },
{
    let mut updated = false;
    if let Some(rows) = rules.without {
        *without = rows;
        updated = true;
    }
    if let Some(rows) = rules.except {
        *except = rows;
        updated = true;
    }
    if updated {
        "Rules loaded from API.".to_owned()
    } else {
        "No valid rules in API response.".to_owned()
    }
}

} // verus!
