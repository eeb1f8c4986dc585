//! `bondar shell`: starts an interactive shell in the container.

use vstd::prelude::*;
use vstd::string::*;

use crate::command::exec::{as_str_option, configured_user, exec_result, exec_user, run_as};
use crate::config::DevContainerConfig;
use crate::docker::{opt_map, Scope};
use crate::error::BondarError;
use crate::maps::EnvMap;
use crate::notes::Plan;
use crate::text::{begins_with, finishes_with, occurs, opt_text, stands_at};
use crate::texts::Texts;

verus! {

/// The command that starts `bash` where there is one, and `sh` otherwise.
pub open spec fn shell_words() -> Seq<Seq<char>> {
    seq![
        "sh"@,
        "-c"@,
        "if command -v bash >/dev/null 2>&1; then exec bash; else exec sh; fi"@,
    ]
}

pub fn shell_command() -> (res: Texts)
    ensures
        res@ == shell_words(),
{
    let mut out = Texts::new();
    out.arg("sh");
    out.arg("-c");
    out.arg("if command -v bash >/dev/null 2>&1; then exec bash; else exec sh; fi");
    assert(out@ =~= shell_words());
    out
}

/// Puts together the command line of the shell, as the configured user and, where a workspace folder
/// is configured, in that.
pub fn run(
    config: &DevContainerConfig,
    scope: &Scope,
    container: &str,
    tty: bool,
    env: Option<&EnvMap>,
) -> (res: Result<Plan, BondarError>)
    ensures
        exec_result(
            *config,
            *scope,
            container@,
            tty,
            configured_user(*config),
            opt_text(config.workspace_folder),
            opt_map(env),
            shell_words(),
            res,
        ),
{
    let user = exec_user(None, config);
    let command = shell_command();
    run_as(
        config,
        scope,
        container,
        tty,
        as_str_option(&user),
        as_str_option(&config.workspace_folder),
        env,
        &command,
    )
}

/// The shell is started by `sh`, which is everywhere: it becomes `bash` where there is one, and stays
/// `sh` otherwise.
pub proof fn law_shell()
    ensures
        ({
            let script = shell_words().last();
            &&& shell_words().len() == 3 && shell_words()[0] == "sh"@ && shell_words()[1] == "-c"@
            &&& begins_with(script, "if command -v bash "@)
            &&& occurs(script, "; then exec bash; else exec sh; fi"@)
            &&& finishes_with(script, "; then exec bash; else exec sh; fi"@)
        }),
{
    let script = shell_words().last();
    reveal_strlit("if command -v bash >/dev/null 2>&1; then exec bash; else exec sh; fi");
    reveal_strlit("if command -v bash ");
    reveal_strlit("; then exec bash; else exec sh; fi");
    let a = "if command -v bash "@;
    let b = "; then exec bash; else exec sh; fi"@;
    assert(script.subrange(0, a.len() as int) =~= a);
    assert(script.subrange(script.len() - b.len(), script.len() as int) =~= b);
    assert(stands_at(script, b, script.len() - b.len()));
}

} // verus!
