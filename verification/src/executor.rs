//! The aggregator's shared polling state and the cluster-readiness
//! decision.
//!
//! Polling the CI service is part of the unverified surroundings; here live
//! the state record those tasks share and the pure decision over a polled
//! build: whether its deploy step has finished so that aggregation may
//! start.

use vstd::prelude::*;

use crate::maps::TagMap;
use crate::nodes::DaemonStatusDataSlim;
use crate::storage::{BuildInfoExpanded, StageInfo, StepInfo};

verus! {

/// The state shared by the polling tasks of one aggregator process.
#[derive(Debug, Clone)]
pub struct AggregatorStateInner {
    pub build_number: usize,
    pub enable_aggregation: bool,
    pub is_cluster_ready: bool,
    pub build_nodes: TagMap<DaemonStatusDataSlim>,
}

impl AggregatorStateInner {
    /// The state before the first successful poll.
    pub fn new() -> (r: Self)
        ensures
            r.build_number == 0,
            !r.enable_aggregation,
            !r.is_cluster_ready,
            r.build_nodes.wf(),
            r.build_nodes.spec_len() == 0,
    {
        AggregatorStateInner {
            build_number: 0,
            enable_aggregation: false,
            is_cluster_ready: false,
            build_nodes: TagMap::new(),
        }
    }
}

/// Whether the stage is one of the deploy pipelines.
pub open spec fn is_deploy_stage(st: StageInfo) -> bool {
    st.name@ == "deploy-to-cluster-custom"@ || st.name@ == "deploy-to-cluster"@
}

/// The first deploy stage of the build, if any.
pub open spec fn first_deploy_stage(stages: Seq<StageInfo>) -> Option<StageInfo>
    decreases stages.len(),
{
    if stages.len() == 0 {
        None
    } else if is_deploy_stage(stages[0]) {
        Some(stages[0])
    } else {
        first_deploy_stage(stages.drop_first())
    }
}

/// The first deploy-nodes step of the stage, if any.
pub open spec fn first_deploy_step(steps: Seq<StepInfo>) -> Option<StepInfo>
    decreases steps.len(),
{
    if steps.len() == 0 {
        None
    } else if steps[0].name@ == "deploy-nodes"@ {
        Some(steps[0])
    } else {
        first_deploy_step(steps.drop_first())
    }
}

/// Whether a polled build says the cluster is ready to aggregate: the build
/// is still running, it has a deploy pipeline, and that pipeline's
/// deploy-nodes step has succeeded.  Data is collected only while the build
/// runs — once the tests finish, the testnet lingers until the next run and
/// must not be measured.
pub open spec fn spec_deployment_ready(info: BuildInfoExpanded) -> bool {
    if info.status@ != "running"@ {
        false
    } else {
        match first_deploy_stage(info.stages@) {
            None => false,
            Some(stage) => match stage.steps {
                None => false,
                Some(steps) => match first_deploy_step(steps@) {
                    None => false,
                    Some(step) => step.status@ == "success"@,
                },
            },
        }
    }
}

/// Decides cluster readiness from a polled build.
pub fn deployment_ready(info: &BuildInfoExpanded) -> (r: bool)
    ensures
        r == spec_deployment_ready(*info),
{
    if !info.status.eq(&"running".to_owned()) {
        return false;
    }
    let n = info.stages.len();
    let ghost stages = info.stages@;
    proof {
        assert(stages.skip(0) =~= stages);
    }
    let mut i: usize = 0;
    while i < n
        invariant
            info.status@ == "running"@,
            n == stages.len(),
            stages == info.stages@,
            i <= n,
            first_deploy_stage(stages) == first_deploy_stage(stages.skip(i as int)),
        decreases n - i,
    {
        proof {
            assert(stages.skip(i as int)[0] == stages[i as int]);
            assert(stages.skip(i as int).drop_first() =~= stages.skip(i + 1));
        }
        let stage = &info.stages[i];
        if stage.name.eq(&"deploy-to-cluster-custom".to_owned()) || stage.name.eq(
            &"deploy-to-cluster".to_owned(),
        ) {
            proof {
                assert(is_deploy_stage(stages[i as int]));
            }
            match &stage.steps {
                None => {
                    return false;
                },
                Some(steps) => {
                    let m = steps.len();
                    let ghost stepsv = steps@;
                    proof {
                        assert(stepsv.skip(0) =~= stepsv);
                    }
                    let mut j: usize = 0;
                    while j < m
                        invariant
                            info.status@ == "running"@,
                            stages == info.stages@,
                            i < stages.len(),
                            is_deploy_stage(stages[i as int]),
                            first_deploy_stage(stages) == first_deploy_stage(
                                stages.skip(i as int),
                            ),
                            stages.skip(i as int).len() > 0,
                            stages.skip(i as int)[0] == stages[i as int],
                            stages[i as int].steps is Some,
                            (stages[i as int].steps->0)@ == stepsv,
                            m == stepsv.len(),
                            stepsv == steps@,
                            j <= m,
                            first_deploy_step(stepsv) == first_deploy_step(
                                stepsv.skip(j as int),
                            ),
                        decreases m - j,
                    {
                        proof {
                            assert(stepsv.skip(j as int)[0] == stepsv[j as int]);
                            assert(stepsv.skip(j as int).drop_first() =~= stepsv.skip(j + 1));
                        }
                        let step = &steps[j];
                        if step.name.eq(&"deploy-nodes".to_owned()) {
                            proof {
                                assert(stepsv[j as int].name@ == "deploy-nodes"@);
                                assert(first_deploy_step(stepsv.skip(j as int)) == Some(
                                    stepsv[j as int],
                                ));
                                assert(first_deploy_stage(stages.skip(i as int)) == Some(
                                    stages[i as int],
                                ));
                            }
                            return step.status.eq(&"success".to_owned());
                        }
                        j = j + 1;
                    }
                    proof {
                        assert(stepsv.skip(m as int) =~= Seq::<StepInfo>::empty());
                    }
                    return false;
                },
            }
        }
        i = i + 1;
    }
    proof {
        assert(stages.skip(n as int) =~= Seq::<StageInfo>::empty());
    }
    false
}

} // verus!
