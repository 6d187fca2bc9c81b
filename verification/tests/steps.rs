use wax::api::{Bottle, BottleFile, Formula};
use wax::commands::install::{InstallPlan, Outcome};
use wax::commands::install_casks::{tally, CaskPipelineFail};
use wax::commands::install_steps::{
    after_plan, bottle_steps, installed_line, BottleStep, Collected, Next,
    Origin, TaskEnd,
};
use wax::commands::sync::{record_synced, sync, synced_content};
use wax::commands::upgrade::OutdatedPackage;
use wax::commands::upgrade_steps::{
    dependents_heading, trial_line, upgrade_next, upgraded_line, Phase, UpgradeNext, UpgradeRun,
};
use wax::install::{InstallMode, InstallState, InstalledPackage};
use wax::lockfile::LockfilePackage;
use wax::system::manager::{declare_requested, record_dropped, record_installed, sync_declared};
use wax::system::state::SystemState;
use wax::table::Table;

fn strings(v: &[&str]) -> Vec<String> {
    v.iter().map(|s| s.to_string()).collect()
}

#[test]
fn upgrades_go_package_by_package() {
    let mut run = UpgradeRun::new(2, 1);
    assert_eq!(run.phase, Phase::Remove(0));
    run.step(true);
    assert_eq!(run.phase, Phase::Install(0));
    run.step(true);
    assert_eq!(run.phase, Phase::Remove(1));
    run.step(false);
    assert_eq!(run.phase, Phase::RemoveDependent(0));
    assert_eq!(run.succeeded, 1);
    assert_eq!(run.failed, [1]);
    run.step(true);
    assert_eq!(run.phase, Phase::InstallDependent(0));
    run.step(false);
    assert_eq!(run.phase, Phase::Finished);
    run.step(true);
    assert_eq!(run.phase, Phase::Finished);
    assert_eq!(run.succeeded + run.failed.len(), 2);
    assert_eq!(UpgradeRun::new(0, 0).phase, Phase::Finished);
    assert_eq!(UpgradeRun::new(0, 3).phase, Phase::RemoveDependent(0));
}

#[test]
fn upgrade_lines_are_written() {
    let mut o = OutdatedPackage {
        name: "a".to_string(),
        installed_version: "1".to_string(),
        latest_version: "2".to_string(),
        is_cask: false,
        install_mode: None,
    };
    assert_eq!(trial_line(&o), "a: 1 → 2");
    assert_eq!(upgraded_line(&o), "a 1 → 2");
    o.is_cask = true;
    assert_eq!(trial_line(&o), "a (cask): 1 → 2");
    assert!(matches!(upgrade_next(&vec![], true), UpgradeNext::UpToDate));
    let outdated = vec![o];
    assert!(matches!(upgrade_next(&outdated, false), UpgradeNext::Upgrade));
    assert!(matches!(
        upgrade_next(&outdated, true),
        UpgradeNext::Trial(lines) if lines == ["a (cask): 1 → 2"]
    ));
    assert_eq!(dependents_heading(1), "reinstalling 1 dependent");
    assert_eq!(dependents_heading(3), "reinstalling 3 dependents");
}

#[test]
fn plans_are_followed() {
    let empty = InstallPlan::of(&strings(&["a"]), &vec![Outcome::AlreadyInstalled]);
    assert!(matches!(after_plan(&empty, false), Next::Nothing));
    let full = InstallPlan::of(
        &strings(&["a"]),
        &vec![Outcome::Resolved(strings(&["lib", "a"]))],
    );
    assert!(matches!(after_plan(&full, false), Next::Install));
    assert!(matches!(
        after_plan(&full, true),
        Next::Trial(lines) if lines == ["+ lib", "+ a"]
    ));
}

#[test]
fn fetched_bottles_are_collected() {
    let mut c = Collected::new();
    assert!(c.awaits(false));
    assert!(c.ended(&TaskEnd::Fetched));
    c.installed(Ok(()));
    c.installed(Err("no room".to_string()));
    assert!(!c.ended(&TaskEnd::Failed("gone".to_string())));
    assert!(!c.ended(&TaskEnd::Broken("panic".to_string())));
    assert_eq!(c.failed, ["no room", "gone", "Task error: panic"]);
    assert!(!c.cancelled);
    assert!(!c.ended(&TaskEnd::Interrupted));
    assert!(c.cancelled);
    assert!(!c.awaits(false));
    let mut d = Collected::new();
    assert!(!d.awaits(true));
    assert!(d.cancelled);
    let mut e = Collected::new();
    assert!(!e.ended(&TaskEnd::Cancelled));
    assert!(e.cancelled);
}

#[test]
fn bottles_are_put_in_place() {
    let steps = bottle_steps("a", "1", "/c", true, "/x/a/1", "/p");
    assert!(matches!(&steps[0], BottleStep::Clear(p) if p == "/c/a/1"));
    assert!(matches!(&steps[1], BottleStep::Make(p) if p == "/c/a/1"));
    assert!(matches!(
        &steps[2],
        BottleStep::Copy { from, to } if from == "/x/a/1" && to == "/c/a/1"
    ));
    assert!(matches!(
        &steps[3],
        BottleStep::Relocate { dir, prefix } if dir == "/c/a/1" && prefix == "/p"
    ));
    assert!(matches!(&steps[4], BottleStep::Link));
    assert!(matches!(&steps[5], BottleStep::Record));
    assert_eq!(steps.len(), 6);
    assert_eq!(bottle_steps("a", "1", "/c", false, "/x", "/p").len(), 5);
    assert_eq!(installed_line("a", "1", Origin::Bottle), "+ a@1");
    assert_eq!(installed_line("a", "1", Origin::Binary), "+ a@1 (binary)");
    assert_eq!(installed_line("a", "1", Origin::Source), "+ a@1 (source)");
    assert_eq!(installed_line("a", "1", Origin::Head), "+ a@1 (HEAD)");
}

#[test]
fn cask_outcomes_are_tallied() {
    let (installed, failed) = tally(&vec![
        ("a".to_string(), None),
        ("b".to_string(), Some(CaskPipelineFail::Checksum)),
        ("c".to_string(), None),
        ("d".to_string(), Some(CaskPipelineFail::Download)),
    ]);
    assert_eq!(installed, 2);
    assert_eq!(failed, ["b", "d"]);
}

#[test]
fn a_second_sync_asks_for_nothing() {
    let mut files = Table::new();
    files.insert(
        "x86_64_linux".to_string(),
        BottleFile { url: "https://b/a".to_string(), sha256: "s".to_string() },
    );
    let formulae = vec![Formula {
        name: "a".to_string(),
        full_name: "a".to_string(),
        desc: None,
        homepage: String::new(),
        stable: "2".to_string(),
        bottled: true,
        installed: None,
        dependencies: None,
        build_dependencies: None,
        bottle: Some(Bottle { rebuild: 0, files }),
        post_install_defined: false,
    }];
    let mut locked: Table<LockfilePackage> = Table::new();
    locked.insert(
        "a".to_string(),
        LockfilePackage { version: "2".to_string(), bottle: "x86_64_linux".to_string() },
    );
    let mut installed: Table<InstalledPackage> = Table::new();
    let items = sync(&locked, &installed, &formulae).unwrap();
    assert_eq!(items.len(), 1);
    assert_eq!(synced_content("/x", &items[0], true), "/x/a/2");
    assert_eq!(synced_content("/x", &items[0], false), "/x");
    let record = record_synced(&items[0], InstallMode::User, 5);
    assert_eq!(record.bottle_sha256, None);
    assert_eq!(record.install_date, 5);
    InstallState::add(&mut installed, record);
    assert!(sync(&locked, &installed, &formulae).unwrap().is_empty());
}

#[test]
fn what_is_declared_is_what_is_tracked() {
    let mut s = SystemState::new();
    s.declare("a");
    s.declare("b");
    s.mark_installed("b", None, true, 1);
    s.mark_installed("c", None, false, 1);
    let plan = sync_declared(&s).unwrap();
    record_dropped(&mut s, &plan.to_remove);
    declare_requested(&mut s, &plan.to_install);
    record_installed(&mut s, &plan.to_install, &vec![], true, 2);
    assert_eq!(s.declared, ["a", "b"]);
    assert!(s.installed.contains_key("a") && s.installed.contains_key("b"));
    assert!(!s.installed.contains_key("c"));
}
