use vstd::prelude::*;

verus! {

/// Errors of the telemetry services.
#[derive(Clone, Copy, Debug, PartialEq, Eq, Structural)]
pub enum F1ServiceError {
    AlreadyExists,
    NotActive,
    InvalidPacketType,
    CastingError,
    Shutdown,
    UnsupportedFormat,
    UdpSocket,
    ReceivingData,
    Encoding,
    NoPortsAvailable,
}

impl F1ServiceError {
    pub fn error_message(&self) -> (r: &'static str)
        ensures
            *self == F1ServiceError::AlreadyExists ==> r@ == "Already Exists"@,
            *self == F1ServiceError::NotActive ==> r@ == "Service not active"@,
            *self == F1ServiceError::InvalidPacketType ==> r@ == "Invalid packet type"@,
            *self == F1ServiceError::CastingError ==> r@ == "Error casting data"@,
            *self == F1ServiceError::Shutdown ==> r@ == "Error shutting down service"@,
            *self == F1ServiceError::UnsupportedFormat ==> r@ == "Unsupported Format"@,
            *self == F1ServiceError::UdpSocket ==> r@ == "Error binding the udp socket"@,
            *self == F1ServiceError::ReceivingData ==> r@ == "Error receiving data"@,
            *self == F1ServiceError::Encoding ==> r@ == "Error encoding data"@,
            *self == F1ServiceError::NoPortsAvailable ==> r@ == "No ports available"@,
    {
        match self {
            F1ServiceError::AlreadyExists => "Already Exists",
            F1ServiceError::NotActive => "Service not active",
            F1ServiceError::InvalidPacketType => "Invalid packet type",
            F1ServiceError::CastingError => "Error casting data",
            F1ServiceError::Shutdown => "Error shutting down service",
            F1ServiceError::UnsupportedFormat => "Unsupported Format",
            F1ServiceError::UdpSocket => "Error binding the udp socket",
            F1ServiceError::ReceivingData => "Error receiving data",
            F1ServiceError::Encoding => "Error encoding data",
            F1ServiceError::NoPortsAvailable => "No ports available",
        }
    }

    /// The HTTP status the control plane answers with.
    pub fn status_code(&self) -> (r: u16)
        ensures
            *self == F1ServiceError::AlreadyExists ==> r == 409,
            *self != F1ServiceError::AlreadyExists ==> r == 500,
    {
        match self {
            F1ServiceError::AlreadyExists => 409,
            _ => 500,
        }
    }
}

/// Errors of the firewall helper.
#[derive(Clone, Copy, Debug, PartialEq, Eq, Structural)]
pub enum FirewallError {
    RuleExists,
    RuleNotFound,
    ExecutionError,
    ParseError,
}

impl FirewallError {
    pub fn error_message(&self) -> (r: &'static str)
        ensures
            *self == FirewallError::RuleExists ==> r@ == "Rule already exists"@,
            *self == FirewallError::RuleNotFound ==> r@ == "Rule not found"@,
            *self == FirewallError::ExecutionError ==> r@ == "Failed to execute command"@,
            *self == FirewallError::ParseError ==> r@ == "Failed to parse"@,
    {
        match self {
            FirewallError::RuleExists => "Rule already exists",
            FirewallError::RuleNotFound => "Rule not found",
            FirewallError::ExecutionError => "Failed to execute command",
            FirewallError::ParseError => "Failed to parse",
        }
    }

    /// The HTTP status the control plane answers with.
    pub fn status_code(&self) -> (r: u16)
        ensures
            *self == FirewallError::RuleExists ==> r == 409,
            *self == FirewallError::RuleNotFound ==> r == 404,
            *self == FirewallError::ExecutionError ==> r == 500,
            *self == FirewallError::ParseError ==> r == 500,
    {
        match self {
            FirewallError::RuleExists => 409,
            FirewallError::RuleNotFound => 404,
            FirewallError::ExecutionError => 500,
            FirewallError::ParseError => 500,
        }
    }
}

} // verus!
