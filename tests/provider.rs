use with_clean_env::provider::{Action, EnvError, Outcome, Stage};

/// Runs the procedure with the given outcome for each acquisition, counting
/// the acquire and release actions performed.
fn drive(token: Outcome, block: Outcome) -> (Stage, Vec<Action>, usize, usize) {
    let mut stage = Stage::new();
    let mut actions = Vec::new();
    let mut acquired = 0;
    let mut released = 0;
    loop {
        let action = stage.action();
        actions.push(action);
        let outcome = match action {
            Action::OpenToken => token,
            Action::CreateBlock => block,
            _ => Outcome::Succeeded,
        };
        match action {
            Action::OpenToken | Action::CreateBlock => {
                if outcome == Outcome::Succeeded {
                    acquired += 1;
                }
            }
            Action::DestroyBlock | Action::CloseToken => released += 1,
            Action::ParseBlock => {}
            Action::Finish => break,
        }
        stage = stage.step(outcome);
    }
    (stage, actions, acquired, released)
}

#[test]
fn token_failure_stops_before_block_creation() {
    let (stage, actions, acquired, released) = drive(Outcome::Failed(5), Outcome::Succeeded);
    assert_eq!(actions, vec![Action::OpenToken, Action::Finish]);
    assert_eq!(stage.failure(), Some(EnvError::ResourceAcquisition(5)));
    assert_eq!(acquired, 0);
    assert_eq!(released, 0);
}

#[test]
fn block_failure_closes_token() {
    let (stage, actions, acquired, released) = drive(Outcome::Succeeded, Outcome::Failed(1314));
    assert_eq!(
        actions,
        vec![Action::OpenToken, Action::CreateBlock, Action::CloseToken, Action::Finish]
    );
    assert_eq!(stage.failure(), Some(EnvError::EnvironmentTemplate(1314)));
    assert_eq!(acquired, 1);
    assert_eq!(released, 1);
}

#[test]
fn success_releases_block_then_token() {
    let (stage, actions, acquired, released) = drive(Outcome::Succeeded, Outcome::Succeeded);
    assert_eq!(
        actions,
        vec![
            Action::OpenToken,
            Action::CreateBlock,
            Action::ParseBlock,
            Action::DestroyBlock,
            Action::CloseToken,
            Action::Finish
        ]
    );
    assert_eq!(stage, Stage::Released);
    assert_eq!(stage.failure(), None);
    assert_eq!(acquired, 2);
    assert_eq!(released, 2);
}

#[test]
fn finished_stage_stays() {
    let done = Stage::Failed(EnvError::ResourceAcquisition(2));
    assert_eq!(done.step(Outcome::Succeeded), done);
    assert_eq!(Stage::Released.step(Outcome::Failed(3)), Stage::Released);
}

#[test]
fn error_code_and_description() {
    let a = EnvError::ResourceAcquisition(5);
    let b = EnvError::EnvironmentTemplate(87);
    assert_eq!(a.code(), 5);
    assert_eq!(b.code(), 87);
    assert!(!a.describe().is_empty());
    assert!(!b.describe().is_empty());
    assert_ne!(a.describe(), b.describe());
}
