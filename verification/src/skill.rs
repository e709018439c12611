//! Requests on shared skills.

use crate::editor::{OpenError, OpenTarget};
use crate::model;
use crate::text;
use vstd::prelude::*;

verus! {

/// What is to be opened: exactly one of a named target and the file of a skill.
pub enum OpenRequest {
    Target(OpenTarget),
    SkillFile(String),
}

pub fn parse_open(target: Option<String>, path: Option<String>) -> (r: Result<
    OpenRequest,
    OpenError,
>)
    ensures
        match (target, path) {
            (None, Some(p)) => r matches Ok(OpenRequest::SkillFile(f)) && f == p,
            (Some(t), None) => match OpenTarget::named(t@) {
                Some(known) => r matches Ok(OpenRequest::Target(x)) && x == known,
                None => r matches Err(OpenError::UnknownTarget(d)) && d@ == t@
                    + "（可用值：agents-md / context-md / skills-root）"@,
            },
            _ => r matches Err(OpenError::UnknownTarget(d)) && d@
                == "必须且只能提供 target 或 path 之一"@,
        },
{
    match (target, path) {
        (None, Some(p)) => Ok(OpenRequest::SkillFile(p)),
        (Some(t), None) => match OpenTarget::parse(t.as_str()) {
            Ok(known) => Ok(OpenRequest::Target(known)),
            Err(e) => Err(e),
        },
        _ => Err(OpenError::UnknownTarget("必须且只能提供 target 或 path 之一".to_owned())),
    }
}

/// The positions of the sources other than the given one.
pub open spec fn remaining(urls: Seq<Seq<char>>, url: Seq<char>) -> Seq<usize>
    decreases urls.len(),
{
    if urls.len() == 0 {
        seq![]
    } else if urls.last() == url {
        remaining(urls.drop_last(), url)
    } else {
        remaining(urls.drop_last(), url).push((urls.len() - 1) as usize)
    }
}

proof fn lemma_remaining(urls: Seq<Seq<char>>, url: Seq<char>)
    ensures
        remaining(urls, url).len() <= urls.len(),
        remaining(urls, url).len() == urls.len() <==> !urls.contains(url),
    decreases urls.len(),
{
    if urls.len() > 0 {
        let rest = urls.drop_last();
        lemma_remaining(rest, url);
        assert(urls.last() == urls[urls.len() - 1]);
        if rest.contains(url) {
            let i = choose|i: int| 0 <= i < rest.len() && rest[i] == url;
            assert(urls[i] == url);
        }
        if urls.contains(url) && urls.last() != url {
            let i = choose|i: int| 0 <= i < urls.len() && urls[i] == url;
            assert(rest[i] == url);
        }
    }
}

/// Forgets a source of skills: the positions of those that stay, or an error where it is not known.
/// The skills themselves are left alone.
pub fn skill_forget_source(urls: &Vec<String>, url: &str) -> (r: Result<Vec<usize>, String>)
    ensures
        if model::texts(urls@).contains(url@) {
            r is Ok && r->Ok_0@ == remaining(model::texts(urls@), url@)
        } else {
            r is Err && r->Err_0@ == "未找到该来源记录"@
        },
{
    let ghost all = model::texts(urls@);
    let mut kept: Vec<usize> = Vec::new();
    let mut i: usize = 0;
    proof {
        assert(all.take(0) =~= seq![]);
        assert(all.len() == urls@.len());
    }
    while i < urls.len()
        invariant
            all == model::texts(urls@),
            all.len() == urls@.len(),
            i <= urls.len(),
            kept@ == remaining(all.take(i as int), url@),
        decreases urls.len() - i,
    {
        proof {
            assert(all.take(i as int + 1).drop_last() =~= all.take(i as int));
            assert(all.take(i as int + 1).last() == urls@[i as int]@);
        }
        if !text::same(urls[i].as_str(), url) {
            kept.push(i);
        }
        i += 1;
    }
    proof {
        assert(all.take(all.len() as int) =~= all);
        lemma_remaining(all, url@);
    }
    if kept.len() == urls.len() {
        Err("未找到该来源记录".to_owned())
    } else {
        Ok(kept)
    }
}

} // verus!
