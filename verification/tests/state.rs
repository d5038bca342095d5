use tolid::state::{use_effect, use_state, StateContext};

/// Runs the effects that wait, each as `run` says, and returns their ids in
/// the order in which they ran.
fn drain(
    ctx: &mut StateContext<i64>,
    run: &mut dyn FnMut(usize, &mut StateContext<i64>),
) -> Vec<usize> {
    let mut ran = vec![];
    while let Some(id) = ctx.next_effect() {
        run(id, ctx);
        ctx.finish_effect();
        ran.push(id);
    }
    ran
}

#[test]
fn a_new_store_is_idle() {
    let mut ctx: StateContext<i64> = StateContext::new();
    assert!(ctx.is_idle());
    assert_eq!(ctx.current_effect(), None);
    assert_eq!(ctx.next_effect(), None);
}

#[test]
fn a_cell_holds_its_initial_value() {
    let mut ctx: StateContext<i64> = StateContext::new();
    let (counter, _) = use_state(&mut ctx, 7);
    assert_eq!(counter.get(&mut ctx), 7);
    let (other, _) = use_state(&mut ctx, -3);
    assert_eq!(other.get(&mut ctx), -3);
    assert_eq!(counter.get(&mut ctx), 7);
}

#[test]
fn set_replaces_the_value() {
    let mut ctx: StateContext<i64> = StateContext::new();
    let (counter, set_counter) = use_state(&mut ctx, 7);
    set_counter.set(&mut ctx, 9);
    assert_eq!(counter.get(&mut ctx), 9);
}

#[test]
fn update_applies_the_function_to_the_old_value() {
    let mut ctx: StateContext<i64> = StateContext::new();
    let (counter, set_counter) = use_state(&mut ctx, 7);
    set_counter.update(&mut ctx, |value| value + 1);
    assert_eq!(counter.get(&mut ctx), 8);
    set_counter.update(&mut ctx, |value| value * 10);
    assert_eq!(counter.get(&mut ctx), 80);
}

#[test]
fn handles_can_be_cloned() {
    let mut ctx: StateContext<i64> = StateContext::new();
    let (counter, set_counter) = use_state(&mut ctx, 1);
    let reader = counter.clone();
    let writer = set_counter.clone();
    writer.set(&mut ctx, 5);
    assert_eq!(reader.get(&mut ctx), 5);
    assert_eq!(counter.get(&mut ctx), 5);
}

#[test]
fn effects_get_ids_in_the_order_of_registration() {
    let mut ctx: StateContext<i64> = StateContext::new();
    assert_eq!(use_effect(&mut ctx), 0);
    assert_eq!(use_effect(&mut ctx), 1);
    assert_eq!(use_effect(&mut ctx), 2);
}

#[test]
fn a_new_effect_runs_once_at_once() {
    let mut ctx: StateContext<i64> = StateContext::new();
    let id = use_effect(&mut ctx);
    assert!(!ctx.is_idle());
    assert_eq!(ctx.next_effect(), Some(id));
    assert_eq!(ctx.current_effect(), Some(id));
    ctx.finish_effect();
    assert_eq!(ctx.current_effect(), None);
    assert_eq!(ctx.next_effect(), None);
    assert!(ctx.is_idle());
}

#[test]
fn an_effect_without_dependencies_never_runs_again() {
    let mut ctx: StateContext<i64> = StateContext::new();
    let (_, set_counter) = use_state(&mut ctx, 0);
    use_effect(&mut ctx);
    assert_eq!(drain(&mut ctx, &mut |_, _| {}), vec![0]);
    set_counter.set(&mut ctx, 1);
    assert_eq!(drain(&mut ctx, &mut |_, _| {}), vec![]);
    set_counter.update(&mut ctx, |value| value + 1);
    assert_eq!(drain(&mut ctx, &mut |_, _| {}), vec![]);
}

#[test]
fn a_read_inside_an_effect_subscribes_it() {
    let mut ctx: StateContext<i64> = StateContext::new();
    let (counter, set_counter) = use_state(&mut ctx, 0);
    let id = use_effect(&mut ctx);
    assert_eq!(
        drain(&mut ctx, &mut |_, ctx| {
            counter.get(ctx);
        }),
        vec![id]
    );
    set_counter.set(&mut ctx, 1);
    assert_eq!(
        drain(&mut ctx, &mut |_, ctx| {
            counter.get(ctx);
        }),
        vec![id]
    );
}

#[test]
fn a_read_outside_an_effect_subscribes_nothing() {
    let mut ctx: StateContext<i64> = StateContext::new();
    let (counter, set_counter) = use_state(&mut ctx, 0);
    use_effect(&mut ctx);
    drain(&mut ctx, &mut |_, _| {});
    counter.get(&mut ctx);
    set_counter.set(&mut ctx, 1);
    assert_eq!(ctx.next_effect(), None);
}

#[test]
fn a_write_runs_each_subscriber_once() {
    let mut ctx: StateContext<i64> = StateContext::new();
    let (counter, set_counter) = use_state(&mut ctx, 0);
    let (other, set_other) = use_state(&mut ctx, 0);
    for _ in 0..4 {
        use_effect(&mut ctx);
    }
    // Effects 0, 1 and 3 read the counter, effect 1 twice; effect 2 reads the
    // other cell.
    let mut read = |id: usize, ctx: &mut StateContext<i64>| match id {
        1 => {
            counter.get(ctx);
            counter.get(ctx);
        }
        2 => {
            other.get(ctx);
        }
        _ => {
            counter.get(ctx);
        }
    };
    assert_eq!(drain(&mut ctx, &mut read), vec![0, 1, 2, 3]);
    set_counter.set(&mut ctx, 1);
    assert_eq!(drain(&mut ctx, &mut read), vec![0, 1, 3]);
    set_counter.update(&mut ctx, |value| value + 1);
    assert_eq!(drain(&mut ctx, &mut read), vec![0, 1, 3]);
    set_other.set(&mut ctx, 1);
    assert_eq!(drain(&mut ctx, &mut read), vec![2]);
}

#[test]
fn two_writes_before_the_effects_run_make_a_subscriber_wait_once() {
    let mut ctx: StateContext<i64> = StateContext::new();
    let (counter, set_counter) = use_state(&mut ctx, 0);
    use_effect(&mut ctx);
    let mut read = |_: usize, ctx: &mut StateContext<i64>| {
        counter.get(ctx);
    };
    drain(&mut ctx, &mut read);
    set_counter.set(&mut ctx, 1);
    set_counter.set(&mut ctx, 2);
    assert_eq!(drain(&mut ctx, &mut read), vec![0]);
}

#[test]
fn subscriptions_are_never_dropped() {
    let mut ctx: StateContext<i64> = StateContext::new();
    let (counter, set_counter) = use_state(&mut ctx, 0);
    use_effect(&mut ctx);
    // The effect reads the counter on its first run only.
    drain(&mut ctx, &mut |_, ctx| {
        counter.get(ctx);
    });
    set_counter.set(&mut ctx, 1);
    assert_eq!(drain(&mut ctx, &mut |_, _| {}), vec![0]);
    set_counter.set(&mut ctx, 2);
    assert_eq!(drain(&mut ctx, &mut |_, _| {}), vec![0]);
}

#[test]
fn an_effect_that_writes_triggers_the_next_after_it_is_done() {
    let mut ctx: StateContext<i64> = StateContext::new();
    let (first, set_first) = use_state(&mut ctx, 0);
    let (second, set_second) = use_state(&mut ctx, 0);
    use_effect(&mut ctx);
    use_effect(&mut ctx);
    // Effect 0 copies the first cell to the second; effect 1 reads the second.
    let mut seen = vec![];
    let mut run = |id: usize, ctx: &mut StateContext<i64>| {
        if id == 0 {
            let value = first.get(ctx);
            set_second.set(ctx, value);
            // The write has only queued effect 1: effect 0 is still the one
            // that runs.
            assert_eq!(ctx.current_effect(), Some(0));
            assert_eq!(ctx.next_effect(), None);
        } else {
            seen.push(second.get(ctx));
        }
    };
    assert_eq!(drain(&mut ctx, &mut run), vec![0, 1]);
    set_first.set(&mut ctx, 5);
    assert_eq!(drain(&mut ctx, &mut run), vec![0, 1]);
    assert_eq!(seen, vec![0, 5]);
}

#[test]
fn a_cycle_of_effects_ends_after_each_ran_once() {
    let mut ctx: StateContext<i64> = StateContext::new();
    let (first, set_first) = use_state(&mut ctx, 0);
    let (second, set_second) = use_state(&mut ctx, 0);
    use_effect(&mut ctx);
    use_effect(&mut ctx);
    // Effect 0 reads the first cell and writes the second; effect 1 reads the
    // second and writes the first.
    let mut run = |id: usize, ctx: &mut StateContext<i64>| {
        if id == 0 {
            let value = first.get(ctx);
            set_second.set(ctx, value + 1);
        } else {
            let value = second.get(ctx);
            set_first.set(ctx, value + 1);
        }
    };
    assert_eq!(drain(&mut ctx, &mut run), vec![0, 1]);
    assert!(ctx.is_idle());
    set_first.set(&mut ctx, 10);
    assert_eq!(drain(&mut ctx, &mut run), vec![0, 1]);
    assert_eq!(first.get(&mut ctx), 12);
    assert_eq!(second.get(&mut ctx), 11);
    // The next batch runs them again.
    set_second.set(&mut ctx, 20);
    assert_eq!(drain(&mut ctx, &mut run), vec![1, 0]);
}

#[test]
fn an_effect_that_writes_what_it_reads_does_not_run_again() {
    let mut ctx: StateContext<i64> = StateContext::new();
    let (counter, set_counter) = use_state(&mut ctx, 0);
    use_effect(&mut ctx);
    let mut run = |_: usize, ctx: &mut StateContext<i64>| {
        let value = counter.get(ctx);
        set_counter.set(ctx, value + 1);
    };
    assert_eq!(drain(&mut ctx, &mut run), vec![0]);
    assert_eq!(counter.get(&mut ctx), 1);
    set_counter.set(&mut ctx, 10);
    assert_eq!(drain(&mut ctx, &mut run), vec![0]);
    assert_eq!(counter.get(&mut ctx), 11);
}

#[test]
fn no_effect_is_handed_out_while_one_runs() {
    let mut ctx: StateContext<i64> = StateContext::new();
    use_effect(&mut ctx);
    use_effect(&mut ctx);
    assert_eq!(ctx.next_effect(), Some(0));
    assert_eq!(ctx.next_effect(), None);
    assert_eq!(ctx.current_effect(), Some(0));
    ctx.finish_effect();
    assert_eq!(ctx.next_effect(), Some(1));
    ctx.finish_effect();
    assert_eq!(ctx.next_effect(), None);
}

#[test]
fn an_effect_registered_by_an_effect_runs_after_it() {
    let mut ctx: StateContext<i64> = StateContext::new();
    use_effect(&mut ctx);
    let mut registered = vec![];
    let mut run = |id: usize, ctx: &mut StateContext<i64>| {
        if id == 0 {
            registered.push(use_effect(ctx));
        }
    };
    assert_eq!(drain(&mut ctx, &mut run), vec![0, 1]);
    assert_eq!(registered, vec![1]);
}

#[test]
fn the_store_counts_its_cells_and_effects() {
    let mut ctx: StateContext<i64> = StateContext::new();
    assert_eq!(ctx.cell_count(), 0);
    assert_eq!(ctx.effect_count(), 0);
    let (first, set_first) = use_state(&mut ctx, 1);
    let (second, set_second) = use_state(&mut ctx, 2);
    assert_eq!(ctx.cell_count(), 2);
    assert_eq!(first.index(), 0);
    assert_eq!(set_first.index(), 0);
    assert_eq!(second.index(), 1);
    assert_eq!(set_second.index(), 1);
    use_effect(&mut ctx);
    assert_eq!(ctx.effect_count(), 1);
}

#[test]
fn cells_of_any_cloneable_type_are_held() {
    let mut ctx: StateContext<String> = StateContext::new();
    let (name, set_name) = use_state(&mut ctx, "anna".to_string());
    set_name.update(&mut ctx, |value| format!("{}!", value));
    assert_eq!(name.get(&mut ctx), "anna!");
}
