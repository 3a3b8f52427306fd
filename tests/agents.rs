use orchestrator::agents::{Agent, AgentConfig, AgentStatus, AgentType, AppState};

#[test]
fn app_state_test_app_state_creation() {
    let state = AppState::new();
    assert_eq!(state.agent_count(), 0);
    assert!(state.selected_agent().is_none());
}

#[test]
fn test_agent_new() {
    let agent = Agent::new("1".to_string(), "Test Agent".to_string(), AgentType::Generic);
    assert_eq!(agent.id, "1");
    assert_eq!(agent.name, "Test Agent");
    assert_eq!(agent.agent_type, AgentType::Generic);
    assert_eq!(agent.status, AgentStatus::Idle);
}

#[test]
fn test_agent_validate() {
    let mut agent = Agent::new("1".to_string(), "Test Agent".to_string(), AgentType::Generic);
    agent.config.command = "test-command".to_string();
    assert!(agent.validate().is_ok());
    agent.name = "".to_string();
    assert!(agent.validate().is_err());
    agent.name = "Test Agent".to_string();
    agent.config.command = "".to_string();
    assert!(agent.validate().is_err());
}

#[test]
fn app_state_test_add_agent() {
    let mut state = AppState::new();
    let agent = Agent::new("1".to_string(), "Test Agent".to_string(), AgentType::Generic);
    assert!(state.add_agent(agent.clone()));
    assert_eq!(state.agent_count(), 1);
    assert!(!state.add_agent(agent));
    assert_eq!(state.agent_count(), 1);
}

#[test]
fn app_state_test_select_agent() {
    let mut state = AppState::new();
    let agent = Agent::new("1".to_string(), "Test Agent".to_string(), AgentType::Generic);
    state.add_agent(agent);
    assert!(state.select_agent(&"1".to_string()));
    assert!(state.selected_agent().is_some());
    assert_eq!(state.selected_agent().unwrap().name, "Test Agent");
    assert!(!state.select_agent(&"999".to_string()));
}

#[test]
fn app_state_test_remove_agent() {
    let mut state = AppState::new();
    let agent = Agent::new("1".to_string(), "Test Agent".to_string(), AgentType::Generic);
    state.add_agent(agent);
    state.select_agent(&"1".to_string());
    let removed = state.remove_agent(&"1".to_string());
    assert!(removed.is_some());
    assert_eq!(state.agent_count(), 0);
    assert!(state.selected_agent().is_none());
}

#[test]
fn app_state_test_update_agent_status() {
    let mut state = AppState::new();
    let agent = Agent::new("1".to_string(), "Test Agent".to_string(), AgentType::Generic);
    state.add_agent(agent);
    assert!(state.update_agent_status(&"1".to_string(), AgentStatus::Running));
    assert_eq!(state.get_agent_mut(&"1".to_string()).unwrap().status, AgentStatus::Running);
    assert!(!state.update_agent_status(&"999".to_string(), AgentStatus::Running));
}

#[test]
fn app_state_test_agents_list_sorted() {
    let mut state = AppState::new();
    state.add_agent(Agent::new("2".to_string(), "Beta Agent".to_string(), AgentType::Generic));
    state.add_agent(Agent::new("1".to_string(), "Alpha Agent".to_string(), AgentType::Generic));
    state.add_agent(Agent::new("3".to_string(), "Gamma Agent".to_string(), AgentType::Generic));
    let agents = state.agents_list();
    assert_eq!(agents.len(), 3);
    assert_eq!(agents[0].name, "Alpha Agent");
    assert_eq!(agents[1].name, "Beta Agent");
    assert_eq!(agents[2].name, "Gamma Agent");
}

#[test]
fn test_agent_type_display_name() {
    assert_eq!(AgentType::Gemini.display_name(), "Gemini CLI");
    assert_eq!(AgentType::AssistantCli.display_name(), "Assistant CLI");
    assert_eq!(AgentType::Generic.display_name(), "Generic CLI");
    assert_eq!(AgentType::Other("Custom".to_string()).display_name(), "Custom");
}

#[test]
fn test_agent_config_default() {
    let config = AgentConfig::default();
    assert!(config.command.is_empty());
    assert!(config.args.is_empty());
    assert!(config.env_vars.is_empty());
    assert!(config.working_dir.is_none());
    assert!(config.options.is_empty());
}

#[test]
fn test_agent_config_new() {
    let config = AgentConfig::new("test-command".to_string());
    assert_eq!(config.command, "test-command");
    assert!(config.args.is_empty());
}

#[test]
fn test_agent_config_validate() {
    let mut config = AgentConfig::default();
    assert!(config.validate().is_err());
    config.command = "test".to_string();
    assert!(config.validate().is_ok());
}
