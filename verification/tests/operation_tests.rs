use stratis_core::operation::{OpEvent, OpStep, OperationLoop};

fn run(n: usize, fail_at: &[usize]) -> Vec<OpStep> {
    let mut op = OperationLoop::new(n);
    let mut steps = Vec::new();
    let mut count = 0;
    loop {
        let step = op.next_step();
        steps.push(step);
        match step {
            OpStep::Succeeded | OpStep::Failed | OpStep::RollbackFailed => return steps,
            _ => {}
        }
        let event = if fail_at.contains(&count) { OpEvent::Error } else { OpEvent::Done };
        count += 1;
        op.advance(event);
    }
}

#[test]
fn all_steps_succeed() {
    assert_eq!(
        run(2, &[]),
        vec![OpStep::BackUp(0), OpStep::Act(0), OpStep::BackUp(1), OpStep::Act(1), OpStep::Succeeded]
    );
    assert_eq!(run(0, &[]), vec![OpStep::Succeeded]);
}

#[test]
fn failed_operation_restores_reached_devices() {
    // The operation on device 1 fails: devices 0 and 1 are restored.
    assert_eq!(
        run(3, &[3]),
        vec![
            OpStep::BackUp(0),
            OpStep::Act(0),
            OpStep::BackUp(1),
            OpStep::Act(1),
            OpStep::Restore(0),
            OpStep::Reload(0),
            OpStep::Restore(1),
            OpStep::Reload(1),
            OpStep::Failed,
        ]
    );
}

#[test]
fn failed_backup_restores_earlier_devices() {
    // The backup of device 1 fails: only device 0 is restored.
    assert_eq!(
        run(3, &[2]),
        vec![
            OpStep::BackUp(0),
            OpStep::Act(0),
            OpStep::BackUp(1),
            OpStep::Restore(0),
            OpStep::Reload(0),
            OpStep::Failed,
        ]
    );
    assert_eq!(run(3, &[0]), vec![OpStep::BackUp(0), OpStep::Failed]);
}

#[test]
fn failed_restore_ends_everything() {
    assert_eq!(
        run(2, &[1, 2]),
        vec![OpStep::BackUp(0), OpStep::Act(0), OpStep::Restore(0), OpStep::RollbackFailed]
    );
}
