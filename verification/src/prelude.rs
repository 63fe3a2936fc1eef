//! Common imports.

pub use crate::assertions::{assert_header, assert_status};
pub use crate::contract::{
    Contract, ContractBuilder, ContractInteraction, ContractManager, ContractMethod,
    ContractRequest, ContractResponse,
};
pub use crate::docker::{ContainerConfig, DockerContainer};
pub use crate::integration::{IntegrationTestError, TestFixture};
pub use crate::load::{LoadTestConfig, LoadTestRunner, LoadTestStats};
pub use crate::mock::{MockController, MockProvider, MockService};
pub use crate::test_client::TestResponse;
