//! The change log of a project as a page of HTML.

use crate::changes::{ChangeLog, CommitModel, PrModel};
use crate::error::Error;
use crate::size::Size;
use crate::text::{chars_of, decimal, push_decimal, string_of};
use vstd::prelude::*;
use vstd::string::StringExecFns;

verus! {

/// The first seven characters of an id, or all of it where it has fewer.
pub open spec fn short_id(oid: Seq<char>) -> Seq<char> {
    if oid.len() > 7 {
        oid.take(7)
    } else {
        oid
    }
}

/// The item of a commit that counts; a commit that does not count has none.
pub open spec fn commit_html(c: CommitModel) -> Seq<char> {
    if c.included() {
        "    <li>commit "@ + short_id(c.oid) + " ("@ + c.size.spec_name() + ") : "@ + c.message
            + "</li>\n"@
    } else {
        Seq::empty()
    }
}

/// The items of the commits that count, in their order.
pub open spec fn commits_html(commits: Seq<CommitModel>) -> Seq<char>
    decreases commits.len(),
{
    if commits.len() == 0 {
        Seq::empty()
    } else {
        commits_html(commits.drop_last()) + commit_html(commits.last())
    }
}

/// Whether a commit counts.
pub open spec fn any_included(commits: Seq<CommitModel>) -> bool {
    exists|i: int| 0 <= i < commits.len() && (#[trigger] commits[i]).included()
}

/// The item of a pull request with the list of its commits that count; a pull request none
/// of whose commits counts has none. The pull request with the number zero stands for the
/// commits outside any pull request.
pub open spec fn entry_html(e: (PrModel, Size)) -> Seq<char> {
    if any_included(e.0.commits) {
        (if e.0.number == 0 {
            "  <li>Other commits : "@
        } else {
            "  <li>PR "@ + decimal(e.0.number as nat) + " : "@
        }) + e.1.spec_name() + " </li>\n"@ + "  <ul>\n"@ + commits_html(e.0.commits)
            + "  </ul>\n"@
    } else {
        Seq::empty()
    }
}

/// The items of the pull requests, in their order.
pub open spec fn entries_html(log: Seq<(PrModel, Size)>) -> Seq<char>
    decreases log.len(),
{
    if log.len() == 0 {
        Seq::empty()
    } else {
        entries_html(log.drop_last()) + entry_html(log.last())
    }
}

/// The page for a change log.
pub open spec fn change_log_html(log: Seq<(PrModel, Size)>) -> Seq<char> {
    "<html>\n<body>\n<ul>\n"@ + entries_html(log) + "</ul>\n</body>\n</html>\n"@
}

/// The page of HTML for a change log: a list of the pull requests that have a commit which
/// counts, each with its size and the list of those commits.
pub fn construct_change_log_html(cl: &ChangeLog) -> (r: Result<String, Error>)
    ensures
        r is Ok,
        r.unwrap()@ == change_log_html(cl@),
{
    let mut output = String::from_str("<html>\n<body>\n<ul>\n");
    let ghost head = output@;
    let entries = cl.entries();
    let ghost log = cl@;
    let mut i: usize = 0;
    while i < entries.len()
        invariant
            i <= entries.len(),
            log == cl@,
            crate::changes::entries_view(entries@) == log,
            head == "<html>\n<body>\n<ul>\n"@,
            output@ == head + entries_html(log.take(i as int)),
        decreases entries.len() - i,
    {
        proof {
            let t = log.take(i + 1);
            assert(t.drop_last() =~= log.take(i as int));
            assert(t.last() == log[i as int]);
            assert(log[i as int] == (entries@[i as int].0@, entries@[i as int].1));
        }
        let pr = &entries[i].0;
        let size = entries[i].1;
        let commits = pr.commits();
        let ghost cm = pr@.commits;
        let mut any = false;
        let mut body = String::from_str("");
        proof {
            reveal_strlit("");
            assert(body@ =~= Seq::<char>::empty());
        }
        let mut k: usize = 0;
        while k < commits.len()
            invariant
                k <= commits.len(),
                crate::changes::commits_view(commits@) == cm,
                any == any_included(cm.take(k as int)),
                body@ == commits_html(cm.take(k as int)),
            decreases commits.len() - k,
        {
            proof {
                let t = cm.take(k + 1);
                assert(t.drop_last() =~= cm.take(k as int));
                assert(t.last() == cm[k as int]);
                assert(cm[k as int] == commits@[k as int]@);
                if any_included(cm.take(k as int)) {
                    let w = choose|w: int|
                        0 <= w < cm.take(k as int).len() && (#[trigger] cm.take(
                            k as int,
                        )[w]).included();
                    assert(t[w].included());
                }
                if any_included(t) && !cm[k as int].included() {
                    let w = choose|w: int| 0 <= w < t.len() && (#[trigger] t[w]).included();
                    assert(cm.take(k as int)[w].included());
                }
            }
            let c = &commits[k];
            if c.included() {
                any = true;
                let ghost before = body@;
                body.append("    <li>commit ");
                let oid = chars_of(c.oid());
                let mut short: Vec<char> = Vec::new();
                let mut j: usize = 0;
                while j < oid.len() && j < 7
                    invariant
                        j <= oid.len(),
                        j <= 7,
                        short@ == oid@.take(j as int),
                    decreases oid.len() - j,
                {
                    short.push(oid[j]);
                    proof {
                        assert(short@ =~= oid@.take(j + 1));
                    }
                    j = j + 1;
                }
                proof {
                    assert(short@ =~= short_id(oid@));
                }
                body.append(string_of(&short).as_str());
                body.append(" (");
                body.append(c.size().name().as_str());
                body.append(") : ");
                body.append(c.message());
                body.append("</li>\n");
                proof {
                    assert(body@ =~= before + commit_html(cm[k as int]));
                }
            } else {
                proof {
                    assert(body@ + commit_html(cm[k as int]) =~= body@);
                }
            }
            k = k + 1;
        }
        proof {
            assert(cm.take(commits.len() as int) =~= cm);
        }
        if any {
            let ghost before = output@;
            if pr.number() == 0 {
                output.append("  <li>Other commits : ");
            } else {
                output.append("  <li>PR ");
                let mut digits: Vec<char> = Vec::new();
                push_decimal(&mut digits, pr.number());
                proof {
                    assert(digits@ =~= decimal(pr@.number as nat));
                }
                output.append(string_of(&digits).as_str());
                output.append(" : ");
            }
            output.append(size.name().as_str());
            output.append(" </li>\n");
            output.append("  <ul>\n");
            output.append(body.as_str());
            output.append("  </ul>\n");
            proof {
                assert(output@ =~= before + entry_html(log[i as int]));
                assert(output@ =~= head + entries_html(log.take(i + 1)));
            }
        } else {
            proof {
                assert(entries_html(log.take(i + 1)) =~= entries_html(log.take(i as int)));
            }
        }
        i = i + 1;
    }
    proof {
        assert(log.take(entries.len() as int) =~= log);
    }
    output.append("</ul>\n</body>\n</html>\n");
    Ok(output)
}

} // verus!
