//! The kinds of system metric that are recorded, and their storage labels.
use vstd::prelude::*;
use core::cmp::Ordering;
use crate::text::compare_str;

verus! {

/// A kind of system metric.
#[derive(Clone, Copy, Debug, PartialEq, Eq, Hash, Structural)]
pub enum MetricKind {
    CpuUsage,
    CpuFrequency,
    GpuUsage,
    GpuFrequency,
    NetworkBytes,
    MemoryUsage,
    DiskUsage,
    Temperature,
    PowerDraw,
}

/// The storage label of a metric kind.
pub open spec fn kind_label(k: MetricKind) -> Seq<char> {
    match k {
        MetricKind::CpuUsage => "cpu_usage"@,
        MetricKind::CpuFrequency => "cpu_frequency"@,
        MetricKind::GpuUsage => "gpu_usage"@,
        MetricKind::GpuFrequency => "gpu_frequency"@,
        MetricKind::NetworkBytes => "network_bytes"@,
        MetricKind::MemoryUsage => "memory_usage"@,
        MetricKind::DiskUsage => "disk_usage"@,
        MetricKind::Temperature => "temperature"@,
        MetricKind::PowerDraw => "power_draw"@,
    }
}

impl MetricKind {
    /// The label under which the kind is stored.
    pub fn as_str(&self) -> (r: &'static str)
        ensures
            r@ == kind_label(*self),
    {
        match self {
            MetricKind::CpuUsage => {
                proof {
                    reveal_strlit("cpu_usage");
                }
                "cpu_usage"
            },
            MetricKind::CpuFrequency => {
                proof {
                    reveal_strlit("cpu_frequency");
                }
                "cpu_frequency"
            },
            MetricKind::GpuUsage => {
                proof {
                    reveal_strlit("gpu_usage");
                }
                "gpu_usage"
            },
            MetricKind::GpuFrequency => {
                proof {
                    reveal_strlit("gpu_frequency");
                }
                "gpu_frequency"
            },
            MetricKind::NetworkBytes => {
                proof {
                    reveal_strlit("network_bytes");
                }
                "network_bytes"
            },
            MetricKind::MemoryUsage => {
                proof {
                    reveal_strlit("memory_usage");
                }
                "memory_usage"
            },
            MetricKind::DiskUsage => {
                proof {
                    reveal_strlit("disk_usage");
                }
                "disk_usage"
            },
            MetricKind::Temperature => {
                proof {
                    reveal_strlit("temperature");
                }
                "temperature"
            },
            MetricKind::PowerDraw => {
                proof {
                    reveal_strlit("power_draw");
                }
                "power_draw"
            },
        }
    }

    /// The kind stored under `raw`, if any.
    pub fn from_label(raw: &str) -> (r: Option<MetricKind>)
        ensures
            r matches Some(k) ==> kind_label(k) == raw@,
            r is None ==> forall|k: MetricKind| kind_label(k) != raw@,
    {
        if let Ordering::Equal = compare_str(raw, "cpu_usage") {
            proof {
                reveal_strlit("cpu_usage");
            }
            return Some(MetricKind::CpuUsage);
        }
        if let Ordering::Equal = compare_str(raw, "cpu_frequency") {
            proof {
                reveal_strlit("cpu_frequency");
            }
            return Some(MetricKind::CpuFrequency);
        }
        if let Ordering::Equal = compare_str(raw, "gpu_usage") {
            proof {
                reveal_strlit("gpu_usage");
            }
            return Some(MetricKind::GpuUsage);
        }
        if let Ordering::Equal = compare_str(raw, "gpu_frequency") {
            proof {
                reveal_strlit("gpu_frequency");
            }
            return Some(MetricKind::GpuFrequency);
        }
        if let Ordering::Equal = compare_str(raw, "network_bytes") {
            proof {
                reveal_strlit("network_bytes");
            }
            return Some(MetricKind::NetworkBytes);
        }
        if let Ordering::Equal = compare_str(raw, "memory_usage") {
            proof {
                reveal_strlit("memory_usage");
            }
            return Some(MetricKind::MemoryUsage);
        }
        if let Ordering::Equal = compare_str(raw, "disk_usage") {
            proof {
                reveal_strlit("disk_usage");
            }
            return Some(MetricKind::DiskUsage);
        }
        if let Ordering::Equal = compare_str(raw, "temperature") {
            proof {
                reveal_strlit("temperature");
            }
            return Some(MetricKind::Temperature);
        }
        if let Ordering::Equal = compare_str(raw, "power_draw") {
            proof {
                reveal_strlit("power_draw");
            }
            return Some(MetricKind::PowerDraw);
        }
        proof {
            reveal_strlit("cpu_usage");
            reveal_strlit("cpu_frequency");
            reveal_strlit("gpu_usage");
            reveal_strlit("gpu_frequency");
            reveal_strlit("network_bytes");
            reveal_strlit("memory_usage");
            reveal_strlit("disk_usage");
            reveal_strlit("temperature");
            reveal_strlit("power_draw");
            assert forall|k: MetricKind| kind_label(k) != raw@ by {
                match k {
                    MetricKind::CpuUsage => {},
                    MetricKind::CpuFrequency => {},
                    MetricKind::GpuUsage => {},
                    MetricKind::GpuFrequency => {},
                    MetricKind::NetworkBytes => {},
                    MetricKind::MemoryUsage => {},
                    MetricKind::DiskUsage => {},
                    MetricKind::Temperature => {},
                    MetricKind::PowerDraw => {},
                }
            }
        }
        None
    }
}

} // verus!
