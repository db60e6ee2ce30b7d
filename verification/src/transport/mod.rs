pub mod concurrentlyexec;
