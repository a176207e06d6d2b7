//! When a command becomes root, and how.

use vstd::prelude::*;

use crate::util::text::{starts_with, str_eq};
#[allow(unused_imports)]
use crate::util::text::{starts, texts};

verus! {

/// What is done about privileges.
#[derive(Clone, Copy, Debug, PartialEq, Eq, Structural)]
pub enum RootStep {
    /// Go on as it is.
    Go,
    /// Refuse: it takes root, and the configuration rules sudo out.
    Refuse,
    /// Start again through sudo.
    Sudo,
}

/// What is done about privileges.
pub open spec fn step_to_root(
    needs_root: bool,
    is_root: bool,
    no_sudo: bool,
    use_sudo: bool,
) -> RootStep {
    if !needs_root || is_root || no_sudo {
        RootStep::Go
    } else if use_sudo {
        RootStep::Sudo
    } else {
        RootStep::Refuse
    }
}

/// What is done about privileges.
pub fn root_step(needs_root: bool, is_root: bool, no_sudo: bool, use_sudo: bool) -> (r: RootStep)
    ensures
        r == if !needs_root || is_root || no_sudo {
            RootStep::Go
        } else if use_sudo {
            RootStep::Sudo
        } else {
            RootStep::Refuse
        },
        r == step_to_root(needs_root, is_root, no_sudo, use_sudo),
{
    if !needs_root || is_root || no_sudo {
        RootStep::Go
    } else if use_sudo {
        RootStep::Sudo
    } else {
        RootStep::Refuse
    }
}

/// An argument that names the configuration.
pub open spec fn config_arg(a: Seq<char>) -> bool {
    a == "--config"@ || starts(a, "--config="@)
}

pub open spec fn names_config(args: Seq<Seq<char>>) -> bool {
    exists|i: int| 0 <= i < args.len() && config_arg(#[trigger] args[i])
}

/// The arguments of sudo that start a command again: with the configuration in use, unless the
/// command names one.
pub fn sudo_args(exe: &str, args: &Vec<String>, config: Option<&str>) -> (r: Vec<String>)
    ensures
        texts(r@) == seq!["-n"@, "--"@, exe@, "--no-sudo"@] + (if config is Some && !names_config(
            texts(args@),
        ) {
            seq!["--config"@, config->0@]
        } else {
            seq![]
        }) + texts(args@),
{
    let ghost all = texts(args@);
    let mut named = false;
    let mut i: usize = 0;
    while i < args.len()
        invariant
            i <= args@.len(),
            all == texts(args@),
            named == exists|k: int| 0 <= k < i && config_arg(#[trigger] all[k]),
        decreases args@.len() - i,
    {
        let a = args[i].as_str();
        assert(all[i as int] == a@);
        let ghost before = named;
        if str_eq(a, "--config") || starts_with(a, "--config=") {
            named = true;
            assert(config_arg(all[i as int]));
        }
        proof {
            if before {
                let k = choose|k: int| 0 <= k < i && config_arg(#[trigger] all[k]);
                assert(0 <= k < i + 1 && config_arg(all[k]));
            }
        }
        i += 1;
    }
    let mut r = vec!["-n".to_owned(), "--".to_owned(), exe.to_owned(), "--no-sudo".to_owned()];
    if let Some(c) = config {
        if !named {
            r.push("--config".to_owned());
            r.push(c.to_owned());
        }
    }
    let ghost head = texts(r@);
    assert(head =~= seq!["-n"@, "--"@, exe@, "--no-sudo"@] + (if config is Some && !names_config(
        all,
    ) {
        seq!["--config"@, config->0@]
    } else {
        seq![]
    }));
    let mut k: usize = 0;
    assert(head + all.take(0) =~= head);
    while k < args.len()
        invariant
            k <= args@.len(),
            all == texts(args@),
            texts(r@) == head + all.take(k as int),
        decreases args@.len() - k,
    {
        let ghost before = texts(r@);
        r.push(args[k].clone());
        assert(texts(r@) =~= before.push(all[k as int]));
        assert(head + all.take(k + 1) =~= before.push(all[k as int]));
        k += 1;
    }
    assert(all.take(all.len() as int) =~= all);
    r
}

/// An argument names the configuration where it is the option alone or the option with a value
/// behind an equals sign; longer options that begin alike do not.
pub proof fn law_configuration_options_are_told_apart(a: Seq<char>, v: Seq<char>)
    ensures
        config_arg("--config"@),
        config_arg("--config="@ + v),
        config_arg(a) && a != "--config"@ ==> a.len() > 8 && a[8] == '=',
{
    reveal_strlit("--config=");
    assert(("--config="@ + v).take(9) =~= "--config="@);
    if starts(a, "--config="@) {
        assert(a.take(9)[8] == a[8]);
    }
}

/// A command that needs no root, or has it, just runs, and so does one that was started through
/// sudo already. Any other one goes through sudo where that may be used, and is refused where not.
pub proof fn law_commands_get_the_privileges_they_need(
    needs_root: bool,
    is_root: bool,
    no_sudo: bool,
    use_sudo: bool,
)
    ensures
        step_to_root(false, is_root, no_sudo, use_sudo) is Go,
        step_to_root(needs_root, true, no_sudo, use_sudo) is Go,
        step_to_root(needs_root, is_root, true, use_sudo) is Go,
        step_to_root(true, false, false, true) is Sudo,
        step_to_root(true, false, false, false) is Refuse,
{
}

} // verus!
