use raytrace::shade::{shade_action, ShadeAction, TraceOutcome};

#[test]
fn exhausted_bounce_budget_yields_black_whatever_happened() {
    assert_eq!(shade_action(0, TraceOutcome::Missed), ShadeAction::Black);
    assert_eq!(shade_action(0, TraceOutcome::Absorbed), ShadeAction::Black);
    assert_eq!(shade_action(0, TraceOutcome::Scattered), ShadeAction::Black);
}

#[test]
fn miss_yields_the_sky_gradient() {
    assert_eq!(shade_action(1, TraceOutcome::Missed), ShadeAction::Sky);
    assert_eq!(shade_action(50, TraceOutcome::Missed), ShadeAction::Sky);
}

#[test]
fn absorbed_ray_yields_black() {
    assert_eq!(shade_action(10, TraceOutcome::Absorbed), ShadeAction::Black);
}

#[test]
fn scattered_ray_recurses() {
    assert_eq!(shade_action(1, TraceOutcome::Scattered), ShadeAction::Recurse);
}
