//! Health view of the exporter: per-router status from its scrape record, and the
//! overall status with its HTTP code.
use crate::registry::{scrape_or_empty, MetricsRegistry, RouterLabels, ScrapeState};
use crate::text::owned;
use vstd::prelude::*;

verus! {

/// Consecutive failures from which a router counts as degraded.
pub const DEGRADED_AFTER_ERRORS: u64 = 3;

/// Highest consecutive-error count reported.
pub const MAX_REPORTED_ERRORS: u64 = 999;

/// Status of one router.
#[derive(Clone, Copy, Debug, PartialEq, Eq, Structural)]
pub enum HealthStatus {
    Healthy,
    Degraded,
    Unknown,
}

/// Healthy after a successful scrape with fewer than three consecutive errors;
/// degraded after any scrape error or three consecutive errors; unknown otherwise.
pub open spec fn status_of(success: u64, errors: u64, consecutive: u64) -> HealthStatus {
    if success > 0 && consecutive < DEGRADED_AFTER_ERRORS {
        HealthStatus::Healthy
    } else if errors > 0 || consecutive >= DEGRADED_AFTER_ERRORS {
        HealthStatus::Degraded
    } else {
        HealthStatus::Unknown
    }
}

pub fn router_status(success: u64, errors: u64, consecutive: u64) -> (r: HealthStatus)
    ensures
        r == status_of(success, errors, consecutive),
{
    if success > 0 && consecutive < DEGRADED_AFTER_ERRORS {
        HealthStatus::Healthy
    } else if errors > 0 || consecutive >= DEGRADED_AFTER_ERRORS {
        HealthStatus::Degraded
    } else {
        HealthStatus::Unknown
    }
}

impl HealthStatus {
    pub open spec fn text(self) -> Seq<char> {
        match self {
            HealthStatus::Healthy => "healthy"@,
            HealthStatus::Degraded => "degraded"@,
            HealthStatus::Unknown => "unknown"@,
        }
    }

    /// The status as the health document writes it.
    pub fn as_string(&self) -> (r: String)
        ensures
            r@ == self.text(),
    {
        match self {
            HealthStatus::Healthy => owned("healthy"),
            HealthStatus::Degraded => owned("degraded"),
            HealthStatus::Unknown => owned("unknown"),
        }
    }
}

/// Health of one router.
pub struct RouterHealth {
    pub name: String,
    pub status: String,
    pub consecutive_errors: u32,
    pub has_successful_scrape: bool,
}

/// The health document.
pub struct HealthResponse {
    pub status: String,
    pub version: String,
    pub routers: Vec<RouterHealth>,
}

/// Consecutive errors as reported, capped at 999.
pub open spec fn reported_errors(n: u64) -> u32 {
    if n > MAX_REPORTED_ERRORS {
        MAX_REPORTED_ERRORS as u32
    } else {
        n as u32
    }
}

/// Consecutive errors of a router: the pool's consecutive connection errors of its key
/// as last recorded, or the run of failed scrapes where that is longer.
pub open spec fn consecutive_of(s: ScrapeState) -> u64 {
    let pool: u64 = match s.connection_errors {
        Some(e) => if e > 0 {
            e as u64
        } else {
            0
        },
        None => 0,
    };
    if pool > s.failure_streak {
        pool
    } else {
        s.failure_streak
    }
}

fn consecutive(s: ScrapeState) -> (r: u64)
    ensures
        r == consecutive_of(s),
{
    let pool: u64 = match s.connection_errors {
        Some(e) => if e > 0 {
            e as u64
        } else {
            0
        },
        None => 0,
    };
    if pool > s.failure_streak {
        pool
    } else {
        s.failure_streak
    }
}

/// Status of a router from the registry's scrape record.
pub open spec fn router_status_in(reg: MetricsRegistry, name: Seq<char>) -> HealthStatus {
    let s = scrape_or_empty(reg.scrape.view(), name);
    status_of(s.success, s.errors, consecutive_of(s))
}

/// Overall health: healthy when no router is degraded.
pub open spec fn all_healthy(reg: MetricsRegistry, names: Seq<String>) -> bool {
    forall|i: int| 0 <= i < names.len() ==> router_status_in(reg, #[trigger] names[i]@) != HealthStatus::Degraded
}

/// The health document for the configured routers, and its HTTP status: 200 when every
/// router is healthy or unknown, 503 when one is degraded.
pub fn health_report(registry: &MetricsRegistry, routers: &[String], version: &str) -> (r: (
    HealthResponse,
    u16,
))
    requires
        registry.wf(),
    ensures
        r.0.routers@.len() == routers@.len(),
        forall|i: int|
            0 <= i < routers@.len() ==> (#[trigger] r.0.routers@[i]).name@ == routers@[i]@
                && r.0.routers@[i].status@ == router_status_in(*registry, routers@[i]@).text()
                && r.0.routers@[i].has_successful_scrape == (scrape_or_empty(
                registry.scrape.view(),
                routers@[i]@,
            ).success > 0) && r.0.routers@[i].consecutive_errors == reported_errors(
                consecutive_of(scrape_or_empty(registry.scrape.view(), routers@[i]@)),
            ),
        r.0.version@ == version@,
        all_healthy(*registry, routers@) ==> r.0.status@ == "healthy"@ && r.1 == 200,
        !all_healthy(*registry, routers@) ==> r.0.status@ == "degraded"@ && r.1 == 503,
{
    let mut out: Vec<RouterHealth> = Vec::new();
    let mut healthy = true;
    let mut i: usize = 0;
    while i < routers.len()
        invariant
            registry.wf(),
            i <= routers@.len(),
            out@.len() == i,
            healthy == forall|j: int| 0 <= j < i ==> router_status_in(*registry, #[trigger] routers@[j]@) != HealthStatus::Degraded,
            forall|j: int|
                0 <= j < i ==> (#[trigger] out@[j]).name@ == routers@[j]@ && out@[j].status@
                    == router_status_in(*registry, routers@[j]@).text()
                    && out@[j].has_successful_scrape == (scrape_or_empty(
                    registry.scrape.view(),
                    routers@[j]@,
                ).success > 0) && out@[j].consecutive_errors == reported_errors(
                    consecutive_of(scrape_or_empty(registry.scrape.view(), routers@[j]@)),
                ),
        decreases routers@.len() - i,
    {
        let labels = RouterLabels { router: routers[i].clone() };
        let record = registry.scrape_record(&labels);
        let success = record.success;
        let errors = record.errors;
        let streak = consecutive(record);
        let status = router_status(success, errors, streak);
        if status == HealthStatus::Degraded {
            healthy = false;
        }
        let shown: u32 = if streak > MAX_REPORTED_ERRORS {
            MAX_REPORTED_ERRORS as u32
        } else {
            streak as u32
        };
        out.push(
            RouterHealth {
                name: routers[i].clone(),
                status: status.as_string(),
                consecutive_errors: shown,
                has_successful_scrape: success > 0,
            },
        );
        i += 1;
    }
    let (status, code) = if healthy {
        (owned("healthy"), 200u16)
    } else {
        (owned("degraded"), 503u16)
    };
    (HealthResponse { status, version: owned(version), routers: out }, code)
}

} // verus!
