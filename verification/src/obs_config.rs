//! The observability settings, as the configuration gives them.

use vstd::prelude::*;
use vstd::string::*;

verus! {

/// The `ntfy` backend as the operator configures it.
#[derive(Debug, PartialEq, Eq)]
pub struct NtfyConfig {
    pub url: String,
}

/// The mail backend as the operator configures it.
#[derive(Debug, PartialEq, Eq)]
pub struct MailConfig {
    pub to: String,
    pub subject_label: String,
}

/// Alerting as the operator configures it.
#[derive(Debug, PartialEq, Eq)]
pub struct AlertingConfig {
    pub ntfy: Option<NtfyConfig>,
    pub mail: Option<MailConfig>,
    pub max_alerts: u32,
    pub window_secs: u64,
}

/// Logging as the operator configures it.
#[derive(Debug, PartialEq, Eq)]
pub struct LoggingConfig {
    pub log_dir: String,
    pub console_level: String,
    pub file_level: String,
}

/// Where alerts go.
#[derive(Debug, PartialEq, Eq)]
pub enum AlertBackend {
    Ntfy { url: String },
    Mail { to: String, subject_label: String },
}

/// How many alerts may go out in how long a time.
#[derive(Clone, Copy, Debug, PartialEq, Eq, Structural)]
pub struct RateLimitConfig {
    pub max_alerts: u32,
    pub window_secs: u64,
}

/// Alerting, settled.
#[derive(Debug, PartialEq, Eq)]
pub struct AlertConfig {
    pub backend: AlertBackend,
    pub rate_limit: RateLimitConfig,
}

/// Observability, settled.
#[derive(Debug, PartialEq, Eq)]
pub struct ObsConfig {
    pub log_dir: String,
    pub console_level: String,
    pub file_level: String,
    pub diagnostic_log_name: String,
    pub security_log_name: String,
    pub instance_name: Option<String>,
    pub alert: Option<AlertConfig>,
}

/// Why alerting is refused.
#[derive(Clone, Copy, Debug, PartialEq, Eq, Structural)]
pub enum AlertFault {
    BothBackends,
    NoBackend,
}

/// The one backend that alerting is configured with.
pub open spec fn backend_of(alerting: AlertingConfig) -> Result<AlertBackend, AlertFault> {
    match (alerting.ntfy, alerting.mail) {
        (Some(ntfy), None) => Ok(AlertBackend::Ntfy { url: ntfy.url }),
        (None, Some(mail)) => Ok(
            AlertBackend::Mail { to: mail.to, subject_label: mail.subject_label },
        ),
        (Some(_), Some(_)) => Err(AlertFault::BothBackends),
        (None, None) => Err(AlertFault::NoBackend),
    }
}

/// What alerting comes to, where it is configured.
pub open spec fn alert_of(alerting: Option<AlertingConfig>) -> Result<
    Option<AlertConfig>,
    AlertFault,
> {
    match alerting {
        None => Ok(None),
        Some(a) => match backend_of(a) {
            Err(fault) => Err(fault),
            Ok(backend) => Ok(
                Some(
                    AlertConfig {
                        backend,
                        rate_limit: RateLimitConfig {
                            max_alerts: a.max_alerts,
                            window_secs: a.window_secs,
                        },
                    },
                ),
            ),
        },
    }
}

fn choose_backend(alerting: &AlertingConfig) -> (backend: Result<AlertBackend, AlertFault>)
    ensures
        backend == backend_of(*alerting),
{
    match (&alerting.ntfy, &alerting.mail) {
        (Some(ntfy), None) => Ok(AlertBackend::Ntfy { url: ntfy.url.clone() }),
        (None, Some(mail)) => Ok(
            AlertBackend::Mail {
                to: mail.to.clone(),
                subject_label: mail.subject_label.clone(),
            },
        ),
        (Some(_), Some(_)) => Err(AlertFault::BothBackends),
        (None, None) => Err(AlertFault::NoBackend),
    }
}

/// Settle observability. The instance is named after the configuration file.
pub fn build(
    logging: &LoggingConfig,
    alerting: &Option<AlertingConfig>,
    config_path: Option<&str>,
) -> (obs: Result<ObsConfig, AlertFault>)
    ensures
        match alert_of(*alerting) {
            Err(fault) => obs == Err::<ObsConfig, AlertFault>(fault),
            Ok(alert) => {
                &&& obs matches Ok(o)
                &&& o.log_dir == logging.log_dir
                &&& o.console_level == logging.console_level
                &&& o.file_level == logging.file_level
                &&& o.diagnostic_log_name@ == "brenn.log"@
                &&& o.security_log_name@ == "security.log"@
                &&& o.instance_name is Some <==> config_path is Some
                &&& o.instance_name matches Some(name) ==> name@ == config_path->0@
                &&& o.alert == alert
            },
        },
{
    let alert: Option<AlertConfig> = match alerting {
        None => None,
        Some(a) => match choose_backend(a) {
            Err(fault) => {
                return Err(fault);
            },
            Ok(backend) => Some(
                AlertConfig {
                    backend,
                    rate_limit: RateLimitConfig {
                        max_alerts: a.max_alerts,
                        window_secs: a.window_secs,
                    },
                },
            ),
        },
    };
    Ok(
        ObsConfig {
            log_dir: logging.log_dir.clone(),
            console_level: logging.console_level.clone(),
            file_level: logging.file_level.clone(),
            diagnostic_log_name: "brenn.log".to_owned(),
            security_log_name: "security.log".to_owned(),
            instance_name: match config_path {
                Some(path) => Some(path.to_owned()),
                None => None,
            },
            alert,
        },
    )
}

/// Alerting takes exactly one backend: both together and neither are refused, each as such. What
/// is settled sends to the configured place, and as many alerts in as long a time as configured.
pub proof fn alerting_takes_one_backend(alerting: AlertingConfig)
    ensures
        alert_of(None) == Ok::<Option<AlertConfig>, AlertFault>(None),
        alerting.ntfy is Some && alerting.mail is Some <==> alert_of(Some(alerting)) == Err::<
            Option<AlertConfig>,
            AlertFault,
        >(AlertFault::BothBackends),
        alerting.ntfy is None && alerting.mail is None <==> alert_of(Some(alerting)) == Err::<
            Option<AlertConfig>,
            AlertFault,
        >(AlertFault::NoBackend),
        alert_of(Some(alerting)) matches Ok(settled) ==> {
            &&& settled matches Some(alert)
            &&& alert.rate_limit.max_alerts == alerting.max_alerts
            &&& alert.rate_limit.window_secs == alerting.window_secs
            &&& alerting.ntfy matches Some(ntfy) ==> alert.backend == (AlertBackend::Ntfy {
                url: ntfy.url,
            })
            &&& alerting.mail matches Some(mail) ==> alert.backend == (AlertBackend::Mail {
                to: mail.to,
                subject_label: mail.subject_label,
            })
        },
{
}

} // verus!
