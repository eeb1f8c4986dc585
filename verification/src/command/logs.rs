//! `bondar logs`: shows the logs of the container.

use vstd::prelude::*;
use vstd::string::*;

use crate::command::exec::as_str_option;
use crate::compose::{compose_logs_args, compose_logs_plan};
use crate::config::DevContainerConfig;
use crate::error::{failure, BondarError, ErrorView};
use crate::notes::{nothing, opt_flag, switch, word, Plan, PlanView};
use crate::text::{opt_str, opt_text};

verus! {

/// The command line of `docker logs`.
pub open spec fn logs_plan(follow: bool, tail: Option<Seq<char>>, container: Seq<char>) -> PlanView {
    nothing().and(word("logs"@)).and(switch(follow, "-f"@)).and(opt_flag("--tail"@, tail)).and(
        word(container),
    )
}

/// Why there are no logs to be had: a container of its own has to exist.
pub open spec fn logs_error(c: DevContainerConfig, container: Seq<char>, found: bool) -> Option<
    ErrorView,
> {
    if c.docker_compose_file is Some || found {
        None
    } else {
        Some(ErrorView::NotFound("Container "@ + container + " does not exist"@))
    }
}

/// The command line for the logs, behind the base of `docker compose` for a compose service.
pub open spec fn logs_of(
    c: DevContainerConfig,
    container: Seq<char>,
    follow: bool,
    tail: Option<Seq<char>>,
) -> PlanView {
    if c.docker_compose_file is Some {
        compose_logs_plan(follow, tail, opt_text(c.service))
    } else {
        logs_plan(follow, tail, container)
    }
}

/// Puts together the command line: of `docker logs` for a container of its own, which has to exist,
/// and what follows the base of `docker compose logs` for a compose service.
pub fn run(
    config: &DevContainerConfig,
    container: &str,
    found: bool,
    follow: bool,
    tail: Option<&str>,
) -> (res: Result<Plan, BondarError>)
    ensures
        failure(res) == logs_error(*config, container@, found),
        res matches Ok(plan) ==> plan@ == logs_of(*config, container@, follow, opt_str(tail)),
{
    if config.docker_compose_file.is_some() {
        return Ok(compose_logs_args(follow, tail, as_str_option(&config.service)));
    }
    if !found {
        return Err(
            BondarError::NotFound(
                "Container ".to_owned().concat(container).concat(" does not exist"),
            ),
        );
    }
    let mut plan = Plan::new();
    plan.arg("logs");
    plan.switch(follow, "-f");
    plan.opt_flag("--tail", tail);
    plan.arg(container);
    Ok(plan)
}

/// The logs are those of the container, as many lines as asked for, and followed where that is asked
/// for; the container is the last word.
pub proof fn law_logs(tail: Seq<char>, container: Seq<char>)
    ensures
        logs_plan(false, None, container).args == seq!["logs"@, container],
        logs_plan(true, None, container).args == seq!["logs"@, "-f"@, container],
        logs_plan(false, Some(tail), container).args == seq!["logs"@, "--tail"@, tail, container],
        logs_plan(true, Some(tail), container).args == seq![
            "logs"@,
            "-f"@,
            "--tail"@,
            tail,
            container,
        ],
{
    assert(logs_plan(false, None, container).args =~= seq!["logs"@, container]);
    assert(logs_plan(true, None, container).args =~= seq!["logs"@, "-f"@, container]);
    assert(logs_plan(false, Some(tail), container).args =~= seq![
        "logs"@,
        "--tail"@,
        tail,
        container,
    ]);
    assert(logs_plan(true, Some(tail), container).args =~= seq![
        "logs"@,
        "-f"@,
        "--tail"@,
        tail,
        container,
    ]);
}

/// There are logs to be had if and only if the container exists or compose is used, and with compose
/// they are those of the service.
pub proof fn law_whose_logs(
    c: DevContainerConfig,
    container: Seq<char>,
    found: bool,
    follow: bool,
    tail: Seq<char>,
    service: String,
)
    ensures
        logs_error(c, container, found) is None <==> found || c.docker_compose_file is Some,
        c.docker_compose_file is None ==> logs_of(c, container, follow, Some(tail)) == logs_plan(
            follow,
            Some(tail),
            container,
        ) && logs_of(c, container, follow, None) == logs_plan(follow, None, container),
        c.docker_compose_file is Some && c.service == Some(service) ==> logs_of(
            c,
            container,
            follow,
            Some(tail),
        ) == logs_plan(follow, Some(tail), service@) && logs_of(c, container, follow, None)
            == logs_plan(follow, None, service@),
{
}

} // verus!
