//! The orchestrator: training episodes, the per-episode exploration
//! schedule, and the evaluation pass.

use vstd::prelude::*;

use crate::agent::clamp_to_i64;
use crate::agent::Agent;
use crate::snake_env::spec_start_key;
use crate::snake_env::Direction;
use crate::snake_env::SnakeEnv;
use crate::snake_env::StateKey;

verus! {

/// One step of the exploration schedule: epsilon, in thousandths, shrinks
/// by the factor 0.995 after an episode while above the 0.1 floor, and
/// holds once at or below it.
pub open spec fn spec_decay(e: int) -> int {
    if e > 100 {
        (e * 995) / 1000
    } else {
        e
    }
}

/// Epsilon, in thousandths, after `n` episodes of the schedule.
pub open spec fn spec_decay_n(e: int, n: nat) -> int
    decreases n,
{
    if n == 0 {
        e
    } else {
        spec_decay_n(spec_decay(e), (n - 1) as nat)
    }
}

/// One schedule step keeps epsilon in range, never takes it below the 0.1
/// floor (`100` in thousandths), and strictly shrinks it while it is above
/// the floor.
pub proof fn lemma_decay_step(e: int)
    requires
        0 <= e <= 1000,
    ensures
        0 <= spec_decay(e) <= 1000,
        e >= 100 ==> spec_decay(e) >= 100,
        e > 100 ==> spec_decay(e) < e,
{
    if e > 100 {
        assert(100 <= (e * 995) / 1000 < e) by (nonlinear_arith)
            requires
                101 <= e <= 1000,
        ;
    }
}

proof fn lemma_decay_n_snoc(e: int, n: nat)
    ensures
        spec_decay_n(e, n + 1) == spec_decay(spec_decay_n(e, n)),
    decreases n,
{
    if n == 0 {
        assert(spec_decay_n(e, 1) == spec_decay_n(spec_decay(e), 0));
    } else {
        lemma_decay_n_snoc(spec_decay(e), (n - 1) as nat);
        assert(spec_decay_n(e, n + 1) == spec_decay_n(spec_decay(e), n));
        assert(spec_decay_n(e, n) == spec_decay_n(spec_decay(e), (n - 1) as nat));
    }
}

/// However many episodes run, a schedule started at or above the 0.1 floor
/// never drops below it (and stays within range).
pub proof fn lemma_epsilon_never_below_floor(e: int, n: nat)
    requires
        100 <= e <= 1000,
    ensures
        100 <= spec_decay_n(e, n) <= 1000,
    decreases n,
{
    if n > 0 {
        lemma_decay_step(e);
        lemma_epsilon_never_below_floor(spec_decay(e), (n - 1) as nat);
    }
}

/// After sufficiently many episodes the schedule reaches the 0.1 floor
/// exactly.
pub proof fn lemma_epsilon_reaches_floor(e: int)
    requires
        100 <= e <= 1000,
    ensures
        exists|n: nat| spec_decay_n(e, n) == 100,
    decreases e,
{
    if e == 100 {
        assert(spec_decay_n(e, 0) == 100);
    } else {
        lemma_decay_step(e);
        lemma_epsilon_reaches_floor(spec_decay(e));
        let n0 = choose|n: nat| spec_decay_n(spec_decay(e), n) == 100;
        assert(spec_decay_n(e, n0 + 1) == spec_decay_n(spec_decay(e), n0));
    }
}

/// Once at the floor, the schedule holds it forever.
pub proof fn lemma_epsilon_floor_holds(n: nat)
    ensures
        spec_decay_n(100, n) == 100,
    decreases n,
{
    if n > 0 {
        lemma_epsilon_floor_holds((n - 1) as nat);
    }
}

proof fn lemma_decay_n_add(e: int, n: nat, k: nat)
    ensures
        spec_decay_n(e, n + k) == spec_decay_n(spec_decay_n(e, n), k),
    decreases n,
{
    if n > 0 {
        lemma_decay_n_add(spec_decay(e), (n - 1) as nat, k);
        assert(spec_decay_n(e, n + k) == spec_decay_n(spec_decay(e), (n + k - 1) as nat));
    }
}

/// Together with `lemma_epsilon_reaches_floor`: from the episode count
/// that first reaches the 0.1 floor onward, epsilon sits at the floor
/// exactly.
pub proof fn lemma_epsilon_stays_once_at_floor(e: int, n: nat, m: nat)
    requires
        spec_decay_n(e, n) == 100,
        m >= n,
    ensures
        spec_decay_n(e, m) == 100,
{
    lemma_decay_n_add(e, n, (m - n) as nat);
    lemma_epsilon_floor_holds((m - n) as nat);
}

/// Applies one step of the exploration schedule: epsilon shrinks by the
/// factor 0.995 while above the 0.1 floor and holds once there. Invoked by
/// the orchestrator once per episode — the schedule is owned outside the
/// agent's policy, so the two stay independently testable.
pub fn decay_epsilon(agent: &mut Agent)
    requires
        old(agent).wf(),
    ensures
        final(agent).wf(),
        final(agent).epsilon as int == spec_decay(old(agent).epsilon as int),
        final(agent).alpha == old(agent).alpha,
        final(agent).gamma == old(agent).gamma,
        final(agent).q_table == old(agent).q_table,
{
    if agent.epsilon > 100 {
        agent.epsilon = agent.epsilon * 995 / 1000;
        proof {
            lemma_decay_step(old(agent).epsilon as int);
        }
    }
}

/// Saturating addition, for accumulating a per-episode reward total.
fn sat_add_i64(a: i64, b: i64) -> (r: i64)
    ensures
        r as int == clamp_to_i64(a + b),
{
    if b >= 0 {
        if a > i64::MAX - b {
            i64::MAX
        } else {
            a + b
        }
    } else {
        if a < i64::MIN - b {
            i64::MIN
        } else {
            a + b
        }
    }
}

/// Trains for `episodes` episodes of at most `max_steps` ticks each. Every
/// episode resets the environment and then alternates observe, choose,
/// step and learn: the successor's best stored value (`0` if unseen) is
/// computed here and handed to the update rule, as its contract demands.
/// An episode ends early on a terminal transition, and epsilon decays once
/// per episode. Returns the per-episode total rewards (saturating sums, in
/// thousandths) for the caller to emit.
///
/// With no episodes nothing is touched. With at least one episode and one
/// tick, selection on the first tick seeds the freshly reset state, so the
/// value table afterwards holds a row for the start state — its key fixed
/// up to wherever the random draw placed the food.
pub fn train(agent: &mut Agent, env: &mut SnakeEnv, episodes: usize, max_steps: usize) -> (totals:
    Vec<i64>)
    requires
        old(agent).wf(),
        old(env).wf(),
    ensures
        final(agent).wf(),
        final(env).wf(),
        final(env).width == old(env).width,
        final(env).height == old(env).height,
        totals@.len() == episodes,
        final(agent).alpha == old(agent).alpha,
        final(agent).gamma == old(agent).gamma,
        final(agent).epsilon as int == spec_decay_n(old(agent).epsilon as int, episodes as nat),
        old(agent).epsilon >= 100 ==> final(agent).epsilon >= 100,
        episodes == 0 ==> *final(agent) == *old(agent) && *final(env) == *old(env),
        episodes >= 1 && max_steps >= 1 ==> exists|fx: usize, fy: usize|
            fx < old(env).width && fy < old(env).height
                && final(agent).q_table.spec_has_state(
                #[trigger] spec_start_key(old(env).width, old(env).height, fx, fy),
            ),
{
    proof {
        if old(agent).epsilon >= 100 {
            lemma_epsilon_never_below_floor(old(agent).epsilon as int, episodes as nat);
        }
    }
    let mut totals: Vec<i64> = Vec::new();
    let mut episode: usize = 0;
    while episode < episodes
        invariant
            agent.wf(),
            env.wf(),
            env.width == old(env).width,
            env.height == old(env).height,
            episode <= episodes,
            totals@.len() == episode,
            agent.alpha == old(agent).alpha,
            agent.gamma == old(agent).gamma,
            agent.epsilon as int == spec_decay_n(old(agent).epsilon as int, episode as nat),
            episode == 0 ==> *agent == *old(agent) && *env == *old(env),
            episode >= 1 && max_steps >= 1 ==> exists|fx: usize, fy: usize|
                fx < old(env).width && fy < old(env).height && agent.q_table.spec_has_state(
                    #[trigger] spec_start_key(old(env).width, old(env).height, fx, fy),
                ),
        decreases episodes - episode,
    {
        env.reset();
        let mut total_reward: i64 = 0;
        let mut t: usize = 0;
        let mut done = false;
        while t < max_steps && !done
            invariant
                agent.wf(),
                env.wf(),
                env.width == old(env).width,
                env.height == old(env).height,
                t <= max_steps,
                agent.alpha == old(agent).alpha,
                agent.gamma == old(agent).gamma,
                agent.epsilon as int == spec_decay_n(old(agent).epsilon as int, episode as nat),
                done ==> t >= 1,
                t == 0 ==> env.snake@.len() == 1 && env.snake@[0].0 == old(env).width / 2
                    && env.snake@[0].1 == old(env).height / 2 && env.direction == Direction::Up,
                t >= 1 || (episode >= 1 && max_steps >= 1) ==> exists|fx: usize, fy: usize|
                    fx < old(env).width && fy < old(env).height && agent.q_table.spec_has_state(
                        #[trigger] spec_start_key(old(env).width, old(env).height, fx, fy),
                    ),
            decreases max_steps - t,
        {
            let ghost table0 = agent.q_table;
            let state = env.get_state();
            let legal = env.legal_actions();
            let action = agent.choose_action(&state, &legal);
            let (next_state, reward, is_done) = env.step(action);
            total_reward = sat_add_i64(total_reward, reward);
            let next_best = agent.q_table.best_value(next_state);
            agent.update_q(&state, action, reward, &next_state, next_best);
            proof {
                if t == 0 {
                    assert(state == spec_start_key(
                        old(env).width,
                        old(env).height,
                        state.food_x,
                        state.food_y,
                    ));
                    assert(state.food_x < old(env).width && state.food_y < old(env).height);
                    assert(agent.q_table.spec_has_state(spec_start_key(
                        old(env).width,
                        old(env).height,
                        state.food_x,
                        state.food_y,
                    )));
                } else {
                    let (fx, fy) = choose|fx: usize, fy: usize|
                        fx < old(env).width && fy < old(env).height && table0.spec_has_state(
                            #[trigger] spec_start_key(old(env).width, old(env).height, fx, fy),
                        );
                    assert(agent.q_table.spec_has_state(spec_start_key(
                        old(env).width,
                        old(env).height,
                        fx,
                        fy,
                    )));
                }
            }
            done = is_done;
            t = t + 1;
        }
        totals.push(total_reward);
        decay_epsilon(agent);
        proof {
            lemma_decay_n_snoc(old(agent).epsilon as int, episode as nat);
        }
        episode = episode + 1;
    }
    totals
}

/// One evaluation pass of at most `max_steps` ticks with the current —
/// already decayed yet still nonzero — epsilon: exploration noise from
/// training deliberately persists into evaluation. To evaluate the purely
/// greedy policy instead, set the agent's epsilon to zero first. Returns
/// the per-step trace of (state, action, reward) for the caller to emit;
/// the final score is left on the environment. Selection may still seed
/// default entries, but no stored estimate changes value.
///
/// With at least one tick allowed the trace is nonempty, and its first
/// entry records the freshly reset state — its key fixed up to wherever
/// the random draw placed the food.
pub fn test(agent: &mut Agent, env: &mut SnakeEnv, max_steps: usize) -> (trace: Vec<
    (StateKey, u8, i64),
>)
    requires
        old(agent).wf(),
        old(env).wf(),
    ensures
        final(agent).wf(),
        final(env).wf(),
        final(env).width == old(env).width,
        final(env).height == old(env).height,
        trace@.len() <= max_steps,
        final(agent).alpha == old(agent).alpha,
        final(agent).gamma == old(agent).gamma,
        final(agent).epsilon == old(agent).epsilon,
        forall|k2: StateKey, a2: u8|
            final(agent).q_table.spec_q(k2, a2) == old(agent).q_table.spec_q(k2, a2),
        max_steps >= 1 ==> trace@.len() >= 1,
        max_steps >= 1 ==> exists|fx: usize, fy: usize|
            fx < old(env).width && fy < old(env).height && trace@[0].0 == spec_start_key(
                old(env).width,
                old(env).height,
                fx,
                fy,
            ),
{
    env.reset();
    let mut trace: Vec<(StateKey, u8, i64)> = Vec::new();
    let mut t: usize = 0;
    let mut done = false;
    while t < max_steps && !done
        invariant
            agent.wf(),
            env.wf(),
            env.width == old(env).width,
            env.height == old(env).height,
            t <= max_steps,
            trace@.len() == t,
            agent.alpha == old(agent).alpha,
            agent.gamma == old(agent).gamma,
            agent.epsilon == old(agent).epsilon,
            forall|k2: StateKey, a2: u8|
                agent.q_table.spec_q(k2, a2) == old(agent).q_table.spec_q(k2, a2),
            done ==> t >= 1,
            t == 0 ==> env.snake@.len() == 1 && env.snake@[0].0 == old(env).width / 2
                && env.snake@[0].1 == old(env).height / 2 && env.direction == Direction::Up,
            t >= 1 ==> exists|fx: usize, fy: usize|
                fx < old(env).width && fy < old(env).height && trace@[0].0 == spec_start_key(
                    old(env).width,
                    old(env).height,
                    fx,
                    fy,
                ),
        decreases max_steps - t,
    {
        let ghost trace0 = trace@;
        let state = env.get_state();
        let legal = env.legal_actions();
        let action = agent.choose_action(&state, &legal);
        let (_next_state, reward, is_done) = env.step(action);
        trace.push((state, action, reward));
        proof {
            if t == 0 {
                assert(trace@[0].0 == state);
                assert(state == spec_start_key(
                    old(env).width,
                    old(env).height,
                    state.food_x,
                    state.food_y,
                ));
                assert(state.food_x < old(env).width && state.food_y < old(env).height);
            } else {
                let (fx, fy) = choose|fx: usize, fy: usize|
                    fx < old(env).width && fy < old(env).height && trace0[0].0 == spec_start_key(
                        old(env).width,
                        old(env).height,
                        fx,
                        fy,
                    );
                assert(trace@[0] == trace0[0]);
            }
        }
        done = is_done;
        t = t + 1;
    }
    trace
}

} // verus!
