//! Choosing the target application from the ones that are running.

use vstd::prelude::*;

use crate::domain::model::{AppDescriptor, AppView};
use crate::error::{AtspiCliError, ErrorView};
use crate::text::{decimal, decimal_string};

verus! {

/// Which application a command targets, by name, by process id, or both.
#[derive(Debug, Default, PartialEq, Eq)]
pub struct ExecutionContext {
    pub target_app_name: Option<String>,
    pub target_pid: Option<u32>,
}

/// Whether `app` has the requested name and process id (an absent request
/// matches anything).
pub open spec fn app_matches(app: AppView, name: Option<Seq<char>>, pid: Option<u32>) -> bool {
    &&& (name matches Some(n) ==> app.name == n)
    &&& (pid matches Some(p) ==> app.pid == p)
}

/// The number of applications among the first `n` that match.
pub open spec fn matches_before(
    apps: Seq<AppView>,
    name: Option<Seq<char>>,
    pid: Option<u32>,
    n: int,
) -> nat
    decreases n,
{
    if n <= 0 {
        0
    } else {
        matches_before(apps, name, pid, n - 1) + if app_matches(apps[n - 1], name, pid) {
            1nat
        } else {
            0nat
        }
    }
}

/// The number of applications that match.
pub open spec fn match_count(apps: Seq<AppView>, name: Option<Seq<char>>, pid: Option<u32>) -> nat {
    matches_before(apps, name, pid, apps.len() as int)
}

/// `k` is the index of the first application that matches.
pub open spec fn is_first_match(
    apps: Seq<AppView>,
    name: Option<Seq<char>>,
    pid: Option<u32>,
    k: int,
) -> bool {
    &&& 0 <= k < apps.len()
    &&& app_matches(apps[k], name, pid)
    &&& forall|m: int| 0 <= m < k ==> !app_matches(#[trigger] apps[m], name, pid)
}

/// The outcome of resolving the target among `apps`: the chosen application,
/// or the error reported.
///
/// - no applications at all is an error;
/// - with a name and a pid, the first application with both is chosen;
/// - with a name only, exactly one application may carry it;
/// - with a pid only, the first application with it is chosen;
/// - with neither, there must be exactly one application.
pub open spec fn resolution(
    name: Option<Seq<char>>,
    pid: Option<u32>,
    apps: Seq<AppView>,
) -> Result<AppView, ErrorView> {
    if apps.len() == 0 {
        Err(ErrorView::AppResolution("No accessible applications were discovered"@))
    } else {
        let count = match_count(apps, name, pid);
        let k = choose|k: int| is_first_match(apps, name, pid, k);
        match (name, pid) {
            (Some(n), Some(p)) => if count == 0 {
                Err(
                    ErrorView::AppResolution(
                        "No application matched --app '"@ + n + "' and --pid '"@ + decimal(
                            p as nat,
                        ) + "'"@,
                    ),
                )
            } else {
                Ok(apps[k])
            },
            (Some(n), None) => if count == 0 {
                Err(ErrorView::AppResolution("No application matched --app '"@ + n + "'"@))
            } else if count > 1 {
                Err(
                    ErrorView::AppResolution(
                        "Multiple applications matched --app '"@ + n + "'; provide --pid"@,
                    ),
                )
            } else {
                Ok(apps[k])
            },
            (None, Some(p)) => if count == 0 {
                Err(
                    ErrorView::AppResolution(
                        "No application matched --pid '"@ + decimal(p as nat) + "'"@,
                    ),
                )
            } else {
                Ok(apps[k])
            },
            (None, None) => if apps.len() == 1 {
                Ok(apps[0])
            } else {
                Err(
                    ErrorView::AppResolution(
                        "Multiple applications discovered; provide --app or --pid"@,
                    ),
                )
            },
        }
    }
}

/// With no match among the first `n` applications, none of them matches.
proof fn lemma_no_match_before(
    apps: Seq<AppView>,
    name: Option<Seq<char>>,
    pid: Option<u32>,
    n: int,
)
    requires
        0 <= n <= apps.len(),
        matches_before(apps, name, pid, n) == 0,
    ensures
        forall|m: int| 0 <= m < n ==> !app_matches(#[trigger] apps[m], name, pid),
    decreases n,
{
    if n > 0 {
        lemma_no_match_before(apps, name, pid, n - 1);
    }
}

/// When some of the first `n` applications match, one of them is the first
/// match.
proof fn lemma_first_match_exists(
    apps: Seq<AppView>,
    name: Option<Seq<char>>,
    pid: Option<u32>,
    n: int,
)
    requires
        0 <= n <= apps.len(),
        matches_before(apps, name, pid, n) > 0,
    ensures
        exists|k: int| k < n && is_first_match(apps, name, pid, k),
    decreases n,
{
    if matches_before(apps, name, pid, n - 1) > 0 {
        lemma_first_match_exists(apps, name, pid, n - 1);
    } else {
        lemma_no_match_before(apps, name, pid, n - 1);
        assert(is_first_match(apps, name, pid, n - 1));
    }
}

/// The application chosen as the target is one of the running applications,
/// and it carries the requested name and process id.
pub proof fn lemma_resolved_app_matches(
    name: Option<Seq<char>>,
    pid: Option<u32>,
    apps: Seq<AppView>,
)
    ensures
        resolution(name, pid, apps) matches Ok(app) ==> {
            &&& app_matches(app, name, pid)
            &&& exists|k: int| 0 <= k < apps.len() && apps[k] == app
        },
{
    if apps.len() > 0 && match_count(apps, name, pid) > 0 {
        lemma_first_match_exists(apps, name, pid, apps.len() as int);
        let k = choose|k: int| is_first_match(apps, name, pid, k);
        assert(is_first_match(apps, name, pid, k));
    }
    if apps.len() == 1 {
        assert(apps[0] == apps[0]);
    }
}

impl ExecutionContext {
    /// The requested name, as characters.
    pub open spec fn name_view(&self) -> Option<Seq<char>> {
        match self.target_app_name {
            Some(n) => Some(n@),
            None => None,
        }
    }

    /// A context targeting `app_name` and `pid` (either may be absent).
    pub fn new(app_name: Option<String>, pid: Option<u32>) -> (r: Self)
        ensures
            r.target_app_name == app_name,
            r.target_pid == pid,
    {
        ExecutionContext { target_app_name: app_name, target_pid: pid }
    }

    /// Chooses the target application among `apps`; the outcome is
    /// [`resolution`] of the requested name and pid, and success always
    /// carries an application.
    pub fn resolve_app(&self, apps: &[AppDescriptor]) -> (r: Result<
        Option<AppDescriptor>,
        AtspiCliError,
    >)
        ensures
            match resolution(self.name_view(), self.target_pid, apps@.map_values(|a: AppDescriptor| a.deep_view())) {
                Ok(v) => r matches Ok(Some(a)) && a.deep_view() == v,
                Err(ev) => r matches Err(e) && e.deep_view() == ev,
            },
    {
        let ghost views = apps@.map_values(|a: AppDescriptor| a.deep_view());
        let ghost name = self.name_view();
        let ghost pid = self.target_pid;
        if apps.len() == 0 {
            return Err(
                AtspiCliError::AppResolution(
                    String::from_str("No accessible applications were discovered"),
                ),
            );
        }
        let mut count: usize = 0;
        let mut first: usize = 0;
        let mut i: usize = 0;
        while i < apps.len()
            invariant
                views == apps@.map_values(|a: AppDescriptor| a.deep_view()),
                name == self.name_view(),
                pid == self.target_pid,
                i <= apps@.len(),
                count == matches_before(views, name, pid, i as int),
                count <= i,
                count > 0 ==> is_first_match(views, name, pid, first as int),
                count == 0 ==> forall|m: int| 0 <= m < i ==> !app_matches(#[trigger] views[m], name, pid),
            decreases apps@.len() - i,
        {
            let app = &apps[i];
            let name_ok = match &self.target_app_name {
                Some(n) => app.name == *n,
                None => true,
            };
            let pid_ok = match self.target_pid {
                Some(p) => app.pid == p,
                None => true,
            };
            assert(views[i as int] == app.deep_view());
            if name_ok && pid_ok {
                if count == 0 {
                    first = i;
                }
                count = count + 1;
            }
            i = i + 1;
        }
        proof {
            if count > 0 {
                let k = choose|k: int| is_first_match(views, name, pid, k);
                assert(is_first_match(views, name, pid, k));
                assert(k == first) by {
                    if k < first {
                        assert(!app_matches(views[k], name, pid));
                    } else if k > first {
                        assert(!app_matches(views[first as int], name, pid));
                    }
                }
            }
        }
        match (&self.target_app_name, self.target_pid) {
            (Some(n), Some(p)) => {
                if count == 0 {
                    let mut m = String::from_str("No application matched --app '");
                    m.append(n.as_str());
                    m.append("' and --pid '");
                    let d = decimal_string(p as u128);
                    m.append(d.as_str());
                    m.append("'");
                    Err(AtspiCliError::AppResolution(m))
                } else {
                    Ok(Some(apps[first].clone()))
                }
            },
            (Some(n), None) => {
                if count == 0 {
                    let mut m = String::from_str("No application matched --app '");
                    m.append(n.as_str());
                    m.append("'");
                    Err(AtspiCliError::AppResolution(m))
                } else if count > 1 {
                    let mut m = String::from_str("Multiple applications matched --app '");
                    m.append(n.as_str());
                    m.append("'; provide --pid");
                    Err(AtspiCliError::AppResolution(m))
                } else {
                    Ok(Some(apps[first].clone()))
                }
            },
            (None, Some(p)) => {
                if count == 0 {
                    let mut m = String::from_str("No application matched --pid '");
                    let d = decimal_string(p as u128);
                    m.append(d.as_str());
                    m.append("'");
                    Err(AtspiCliError::AppResolution(m))
                } else {
                    Ok(Some(apps[first].clone()))
                }
            },
            (None, None) => {
                if apps.len() == 1 {
                    Ok(Some(apps[0].clone()))
                } else {
                    Err(
                        AtspiCliError::AppResolution(
                            String::from_str(
                                "Multiple applications discovered; provide --app or --pid",
                            ),
                        ),
                    )
                }
            },
        }
    }
}

} // verus!
